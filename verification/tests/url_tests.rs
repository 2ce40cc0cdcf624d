use shelves::url::{Scheme, Url, UrlError};

fn parse(text: &str) -> Result<Url, UrlError> {
    Url::new(text.to_string())
}

#[test]
fn parses_full_url() {
    let u = parse("http://example.com:8080/a/b").unwrap();
    assert!(matches!(u.scheme(), Scheme::Http));
    assert_eq!(u.host(), "example.com");
    assert_eq!(u.port(), Some(8080));
    assert_eq!(u.path(), "/a/b");
}

#[test]
fn parses_https_default_port() {
    let u = parse("https://example.com/x").unwrap();
    assert!(matches!(u.scheme(), Scheme::Https));
    assert_eq!(u.host(), "example.com");
    assert_eq!(u.port(), None);
    assert_eq!(u.path(), "/x");
}

#[test]
fn bare_host_gets_root_path() {
    let u = parse("http://h").unwrap();
    assert_eq!(u.host(), "h");
    assert_eq!(u.port(), None);
    assert_eq!(u.path(), "/");
}

#[test]
fn file_url_keeps_absolute_path() {
    let u = parse("file:///tmp/test.html").unwrap();
    assert!(matches!(u.scheme(), Scheme::File));
    assert_eq!(u.host(), "");
    assert_eq!(u.path(), "/tmp/test.html");
}

#[test]
fn no_scheme_separator_is_rejected() {
    let e = parse("not-a-url").unwrap_err();
    assert_eq!(e, UrlError::NoSchemeProvided);
}

#[test]
fn unknown_scheme_is_rejected_with_its_name() {
    let e = parse("ftp://host/path").unwrap_err();
    assert_eq!(e, UrlError::UnknownScheme("ftp".to_string()));
}

#[test]
fn non_numeric_port_is_rejected() {
    let e = parse("http://host:notanumber/path").unwrap_err();
    assert_eq!(e, UrlError::InvalidPortInt);
}

#[test]
fn oversized_port_is_rejected() {
    let e = parse("http://host:65536/path").unwrap_err();
    assert_eq!(e, UrlError::InvalidPortInt);
}

#[test]
fn empty_port_is_rejected() {
    let e = parse("http://host:/path").unwrap_err();
    assert_eq!(e, UrlError::InvalidPortInt);
}

#[test]
fn render_round_trips_with_port() {
    let text = "https://example.com:8443/a?q=1";
    let u = parse(text).unwrap();
    let rendered = u.render();
    assert_eq!(rendered, text);
    let v = parse(&rendered).unwrap();
    assert!(matches!(v.scheme(), Scheme::Https));
    assert_eq!(v.host(), u.host());
    assert_eq!(v.port(), u.port());
    assert_eq!(v.path(), u.path());
}

#[test]
fn render_round_trips_without_port() {
    let u = parse("http://example.com/index.html").unwrap();
    let rendered = u.render();
    assert_eq!(rendered, "http://example.com/index.html");
    let v = parse(&rendered).unwrap();
    assert_eq!(v.host(), "example.com");
    assert_eq!(v.port(), None);
    assert_eq!(v.path(), "/index.html");
}

#[test]
fn render_adds_root_path() {
    let u = parse("http://h:81").unwrap();
    assert_eq!(u.render(), "http://h:81/");
}

#[test]
fn with_path_replaces_only_the_path() {
    let u = parse("http://example.com:8080/old").unwrap();
    let v = u.with_path("/new".to_string());
    assert_eq!(v.host(), "example.com");
    assert_eq!(v.port(), Some(8080));
    assert_eq!(v.path(), "/new");
    assert!(matches!(v.scheme(), Scheme::Http));
    assert_eq!(u.path(), "/old");
}

#[test]
fn port_with_plus_sign_parses_as_rust_does() {
    let u = parse("http://h:+80/x").unwrap();
    assert_eq!(u.port(), Some(80));
}

#[test]
fn largest_port_round_trips() {
    let u = parse("http://h:65535/x").unwrap();
    assert_eq!(u.port(), Some(65535));
    assert_eq!(u.render(), "http://h:65535/x");
}

#[test]
fn colon_in_path_is_not_a_port() {
    let u = parse("http://h/a:b").unwrap();
    assert_eq!(u.host(), "h");
    assert_eq!(u.port(), None);
    assert_eq!(u.path(), "/a:b");
}
