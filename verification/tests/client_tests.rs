use shelves::client::{
    file_response, Body, Client, Fetch, FetchStep, Plan, RequestError, Response, MAX_REDIRECTS,
};
use shelves::headers::Headers;
use shelves::url::{Url, UrlError};

fn url(text: &str) -> Url {
    Url::new(text.to_string()).unwrap()
}

fn redirect_to(location: &str) -> Response {
    let mut headers = Headers::new();
    headers.insert("Location".to_string(), location.to_string());
    Response { status_code: 301, headers, body: Body::Bytes(Vec::new()) }
}

fn plain_response(status: u16) -> Response {
    let mut headers = Headers::new();
    headers.insert("Content-Length".to_string(), "0".to_string());
    Response { status_code: status, headers, body: Body::Bytes(Vec::new()) }
}

#[test]
fn relative_redirect_consumes_one_hop() {
    let mut fetch = Fetch::begin(&url("http://h/old"));
    assert_eq!(fetch.hops_remaining(), 128);
    let step = fetch.handle_redirect(redirect_to("/new"));
    assert!(matches!(step, FetchStep::Redirected));
    assert_eq!(fetch.url().render(), "http://h/new");
    assert_eq!(fetch.hops_remaining(), 127);
}

#[test]
fn redirect_location_is_trimmed() {
    let mut fetch = Fetch::begin(&url("http://h/old"));
    let step = fetch.handle_redirect(redirect_to("  /new  "));
    assert!(matches!(step, FetchStep::Redirected));
    assert_eq!(fetch.url().path(), "/new");
}

#[test]
fn absolute_redirect_switches_host() {
    let mut fetch = Fetch::begin(&url("http://h/old"));
    let step = fetch.handle_redirect(redirect_to("https://other.example:444/x"));
    assert!(matches!(step, FetchStep::Redirected));
    assert_eq!(fetch.url().render(), "https://other.example:444/x");
    assert_eq!(fetch.hops_remaining(), 127);
}

#[test]
fn bad_redirect_target_reports_both_text_and_cause() {
    let mut fetch = Fetch::begin(&url("http://h/old"));
    let step = fetch.handle_redirect(redirect_to("not a url"));
    match step {
        FetchStep::Failed(RequestError::BadRedirectUrl(text, cause)) => {
            assert_eq!(text, "not a url");
            assert_eq!(cause, UrlError::NoSchemeProvided);
        }
        _ => panic!("expected BadRedirectUrl"),
    }
    assert_eq!(fetch.hops_remaining(), 128);
}

#[test]
fn redirect_without_location_fails() {
    let mut fetch = Fetch::begin(&url("http://h/old"));
    let step = fetch.handle_redirect(plain_response(302));
    match step {
        FetchStep::Failed(e) => assert_eq!(e, RequestError::NoRedirectFound),
        _ => panic!("expected NoRedirectFound"),
    }
}

#[test]
fn non_redirect_finishes_with_the_response() {
    let mut fetch = Fetch::begin(&url("http://h/old"));
    let step = fetch.handle_redirect(plain_response(404));
    match step {
        FetchStep::Finished(resp) => {
            assert_eq!(resp.status_code, 404);
            assert_eq!(resp.headers.get("Content-Length").unwrap(), "0");
        }
        _ => panic!("expected Finished"),
    }
    assert_eq!(fetch.hops_remaining(), 128);
    assert_eq!(fetch.url().render(), "http://h/old");
}

#[test]
fn chain_of_129_redirects_fails_after_128_hops() {
    let mut fetch = Fetch::begin(&url("http://h/start"));
    let mut follows: u32 = 0;
    let mut failure: Option<RequestError> = None;
    for i in 0..129 {
        let step = fetch.handle_redirect(redirect_to(&format!("/hop{}", i)));
        match step {
            FetchStep::Redirected => follows += 1,
            FetchStep::Failed(e) => {
                failure = Some(e);
                break;
            }
            FetchStep::Finished(_) => panic!("a redirect never finishes the chain"),
        }
    }
    assert_eq!(follows, 128);
    assert_eq!(failure, Some(RequestError::MaximumRedirects));
    assert_eq!(fetch.hops_remaining(), 0);
}

#[test]
fn max_redirects_is_128() {
    assert_eq!(MAX_REDIRECTS, 128);
}

#[test]
fn same_host_reuses_the_cached_connection() {
    let mut client = Client::new();
    let u = url("http://example.com/a");
    let key = match client.plan_request(&u) {
        Plan::Open { key } => key,
        _ => panic!("an empty cache must open"),
    };
    assert!(!key.https);
    assert_eq!(key.host, "example.com");
    assert_eq!(key.port, 80);
    let slot = client.note_opened(key);
    assert_eq!(slot, 0);
    assert_eq!(client.open_connections(), 1);
    let again = url("http://example.com/b");
    match client.plan_request(&again) {
        Plan::Reuse { conn } => assert_eq!(conn, 0),
        _ => panic!("the second request must reuse the connection"),
    }
    assert_eq!(client.open_connections(), 1);
}

#[test]
fn different_port_opens_a_second_connection() {
    let mut client = Client::new();
    let key = match client.plan_request(&url("http://example.com/a")) {
        Plan::Open { key } => key,
        _ => panic!("an empty cache must open"),
    };
    client.note_opened(key);
    match client.plan_request(&url("http://example.com:8080/a")) {
        Plan::Open { key } => assert_eq!(key.port, 8080),
        _ => panic!("another port must open its own connection"),
    }
}

#[test]
fn different_scheme_opens_a_second_connection() {
    let mut client = Client::new();
    let key = match client.plan_request(&url("http://example.com/a")) {
        Plan::Open { key } => key,
        _ => panic!("an empty cache must open"),
    };
    client.note_opened(key);
    match client.plan_request(&url("https://example.com/a")) {
        Plan::Open { key } => {
            assert!(key.https);
            assert_eq!(key.port, 443);
        }
        _ => panic!("another scheme must open its own connection"),
    }
}

#[test]
fn file_urls_read_from_disk_not_the_network() {
    let client = Client::new();
    match client.plan_request(&url("file:///tmp/page.html")) {
        Plan::File { path } => assert_eq!(path, "/tmp/page.html"),
        _ => panic!("file URLs never touch a connection"),
    }
}

#[test]
fn file_response_is_a_bare_200() {
    let resp = file_response("<b>hi</b>".to_string());
    assert_eq!(resp.status_code, 200);
    assert_eq!(resp.headers.len(), 0);
    match resp.body {
        Body::Text(t) => assert_eq!(t, "<b>hi</b>"),
        Body::Bytes(_) => panic!("file bodies are text"),
    }
}
