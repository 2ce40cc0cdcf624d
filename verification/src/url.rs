//! Textual URLs of the form `scheme://host[:port]path`, with the three
//! schemes this client speaks. Parsing and rendering are specified against
//! `spec_parse` and `spec_render`, and proved to round-trip.

use vstd::prelude::*;

use crate::text::{
    dec_digits, find_char, find_char_from, is_digit, parse_u16, spec_parse_u16, str_eq,
    u16_to_string,
};

verus! {

#[derive(Copy, Clone, PartialEq, Eq, Hash, Debug, Structural)]
pub enum Scheme {
    Http,
    Https,
    File,
}

/// Why a URL failed to parse.
#[derive(Debug, PartialEq, Eq)]
pub enum UrlError {
    /// The text holds no `://` separator.
    NoSchemeProvided,
    /// The text after the host's `:` is not a `u16` port number.
    InvalidPortInt,
    /// The scheme before `://` is none of `http`, `https`, `file`.
    UnknownScheme(String),
}

pub enum SpecUrlError {
    NoSchemeProvided,
    InvalidPortInt,
    UnknownScheme(Seq<char>),
}

impl View for UrlError {
    type V = SpecUrlError;

    open spec fn view(&self) -> SpecUrlError {
        match self {
            UrlError::NoSchemeProvided => SpecUrlError::NoSchemeProvided,
            UrlError::InvalidPortInt => SpecUrlError::InvalidPortInt,
            UrlError::UnknownScheme(s) => SpecUrlError::UnknownScheme(s@),
        }
    }
}

/// A parsed URL: scheme, host, optional port, and a path starting with `/`.
#[derive(Clone, Debug)]
pub struct Url {
    scheme: Scheme,
    host: String,
    port: Option<u16>,
    path: String,
}

/// The mathematical content of a `Url`.
pub struct SpecUrl {
    pub scheme: Scheme,
    pub host: Seq<char>,
    pub port: Option<u16>,
    pub path: Seq<char>,
}

impl View for Url {
    type V = SpecUrl;

    closed spec fn view(&self) -> SpecUrl {
        SpecUrl { scheme: self.scheme, host: self.host@, port: self.port, path: self.path@ }
    }
}

/// `://` occurs at index `i`.
pub open spec fn sep_at(s: Seq<char>, i: int) -> bool {
    &&& i + 3 <= s.len()
    &&& s[i] == ':'
    &&& s[i + 1] == '/'
    &&& s[i + 2] == '/'
}

/// First index at or after `i` where `://` occurs.
pub open spec fn find_sep_from(s: Seq<char>, i: int) -> Option<int>
    decreases s.len() - i when 0 <= i
{
    if i + 3 > s.len() {
        None
    } else if sep_at(s, i) {
        Some(i)
    } else {
        find_sep_from(s, i + 1)
    }
}

pub proof fn lemma_find_sep_from(s: Seq<char>, i: int)
    requires
        0 <= i,
    ensures
        match find_sep_from(s, i) {
            Some(k) => i <= k && sep_at(s, k) && forall|j: int| i <= j < k ==> !sep_at(s, j),
            None => forall|j: int| i <= j ==> !sep_at(s, j),
        },
    decreases s.len() - i,
{
    if i + 3 > s.len() {
        assert forall|j: int| i <= j implies !sep_at(s, j) by {}
    } else if !sep_at(s, i) {
        lemma_find_sep_from(s, i + 1);
    }
}

pub open spec fn http_chars() -> Seq<char> {
    seq!['h', 't', 't', 'p']
}

pub open spec fn https_chars() -> Seq<char> {
    seq!['h', 't', 't', 'p', 's']
}

pub open spec fn file_chars() -> Seq<char> {
    seq!['f', 'i', 'l', 'e']
}

pub open spec fn scheme_chars(sch: Scheme) -> Seq<char> {
    match sch {
        Scheme::Http => http_chars(),
        Scheme::Https => https_chars(),
        Scheme::File => file_chars(),
    }
}

pub open spec fn scheme_of_chars(s: Seq<char>) -> Option<Scheme> {
    if s == http_chars() {
        Some(Scheme::Http)
    } else if s == https_chars() {
        Some(Scheme::Https)
    } else if s == file_chars() {
        Some(Scheme::File)
    } else {
        None
    }
}

/// What parsing a URL text yields: the scheme is the text before the first
/// `://`; the host runs to the first `/` after it, or to the end, in which
/// case the path is `/`; a `:` inside the host range starts a port, which
/// must be a `u16`.
pub open spec fn spec_parse(s: Seq<char>) -> Result<SpecUrl, SpecUrlError> {
    match find_sep_from(s, 0) {
        None => Err(SpecUrlError::NoSchemeProvided),
        Some(se) => {
            let sch_chars = s.subrange(0, se);
            match scheme_of_chars(sch_chars) {
                None => Err(SpecUrlError::UnknownScheme(sch_chars)),
                Some(scheme) => {
                    let hs = se + 3;
                    let he = match find_char_from(s, '/', hs) {
                        Some(i) => i,
                        None => s.len() as int,
                    };
                    let path = if he == s.len() {
                        seq!['/']
                    } else {
                        s.subrange(he, s.len() as int)
                    };
                    match find_char_from(s, ':', hs) {
                        Some(ci) => if ci < he {
                            match spec_parse_u16(s.subrange(ci + 1, he)) {
                                None => Err(SpecUrlError::InvalidPortInt),
                                Some(p) => Ok(
                                    SpecUrl {
                                        scheme,
                                        host: s.subrange(hs, ci),
                                        port: Some(p),
                                        path,
                                    },
                                ),
                            }
                        } else {
                            Ok(SpecUrl { scheme, host: s.subrange(hs, he), port: None, path })
                        },
                        None => Ok(SpecUrl { scheme, host: s.subrange(hs, he), port: None, path }),
                    }
                },
            }
        },
    }
}

/// The text a URL renders to: `scheme://host[:port]path`, the port omitted
/// when absent.
pub open spec fn spec_render(u: SpecUrl) -> Seq<char> {
    scheme_chars(u.scheme) + seq![':', '/', '/'] + u.host + (match u.port {
        Some(p) => seq![':'] + dec_digits(p as int),
        None => Seq::<char>::empty(),
    }) + u.path
}

fn find_sep(s: &str) -> (r: Option<usize>)
    ensures
        match r {
            Some(i) => find_sep_from(s@, 0) == Some(i as int),
            None => find_sep_from(s@, 0) is None,
        },
{
    let n: usize = s.unicode_len();
    if n < 3 {
        return None;
    }
    let mut i: usize = 0;
    while i <= n - 3
        invariant
            0 <= i <= n,
            n == s@.len(),
            3 <= n,
            find_sep_from(s@, 0) == find_sep_from(s@, i as int),
        decreases n - i,
    {
        if s.get_char(i) == ':' && s.get_char(i + 1) == '/' && s.get_char(i + 2) == '/' {
            return Some(i);
        }
        i = i + 1;
    }
    None
}

impl Url {
    /// Parses a textual URL, exactly as `spec_parse` describes; the errors
    /// come when `spec_parse` says they do, and only then.
    pub fn new(url: String) -> (r: Result<Url, UrlError>)
        ensures
            match r {
                Ok(u) => spec_parse(url@) == Ok::<SpecUrl, SpecUrlError>(u@),
                Err(e) => spec_parse(url@) == Err::<SpecUrl, SpecUrlError>(e@),
            },
    {
        let s = url.as_str();
        let n: usize = s.unicode_len();
        let se: usize = match find_sep(s) {
            None => {
                return Err(UrlError::NoSchemeProvided);
            },
            Some(i) => i,
        };
        assert(se + 3 <= n) by {
            lemma_find_sep_from(s@, 0);
        }
        let sch_str = s.substring_char(0, se);
        proof {
            reveal_strlit("http");
            reveal_strlit("https");
            reveal_strlit("file");
            assert("http"@ =~= http_chars());
            assert("https"@ =~= https_chars());
            assert("file"@ =~= file_chars());
        }
        let scheme: Scheme = if str_eq(sch_str, "http") {
            Scheme::Http
        } else if str_eq(sch_str, "https") {
            Scheme::Https
        } else if str_eq(sch_str, "file") {
            Scheme::File
        } else {
            return Err(UrlError::UnknownScheme(sch_str.to_owned()));
        };
        let hs: usize = se + 3;
        let he: usize = match find_char(s, '/', hs) {
            Some(i) => i,
            None => n,
        };
        proof {
            crate::text::lemma_find_char_from(s@, '/', hs as int);
        }
        let path: String = if he == n {
            let p = slash_string();
            p
        } else {
            s.substring_char(he, n).to_owned()
        };
        let colon = find_char(s, ':', hs);
        proof {
            crate::text::lemma_find_char_from(s@, ':', hs as int);
        }
        match colon {
            Some(ci) if ci < he => {
                let port_str = s.substring_char(ci + 1, he);
                match parse_u16(port_str) {
                    None => Err(UrlError::InvalidPortInt),
                    Some(p) => Ok(
                        Url {
                            scheme,
                            host: s.substring_char(hs, ci).to_owned(),
                            port: Some(p),
                            path,
                        },
                    ),
                }
            },
            _ => Ok(
                Url { scheme, host: s.substring_char(hs, he).to_owned(), port: None, path },
            ),
        }
    }

    /// An owned copy with the same view; the derived `Clone` carries no
    /// contract, so verified callers copy through this.
    pub fn duplicate(&self) -> (r: Url)
        ensures
            r@ == self@,
    {
        Url {
            scheme: self.scheme,
            host: self.host.clone(),
            port: self.port,
            path: self.path.clone(),
        }
    }

    /// The same URL with the path replaced; scheme, host and port are kept.
    pub fn with_path(&self, path: String) -> (r: Url)
        ensures
            r@ == (SpecUrl { path: path@, ..self@ }),
    {
        Url { scheme: self.scheme, host: self.host.clone(), port: self.port, path }
    }

    pub fn host(&self) -> (r: &str)
        ensures
            r@ == self@.host,
    {
        self.host.as_str()
    }

    pub fn scheme(&self) -> (r: Scheme)
        ensures
            r == self@.scheme,
    {
        self.scheme
    }

    pub fn port(&self) -> (r: Option<u16>)
        ensures
            r == self@.port,
    {
        self.port
    }

    pub fn path(&self) -> (r: &str)
        ensures
            r@ == self@.path,
    {
        self.path.as_str()
    }

    /// Renders the URL back to text, as `spec_render` describes.
    pub fn render(&self) -> (r: String)
        ensures
            r@ == spec_render(self@),
    {
        let mut out: String = self.scheme.prefix().to_owned();
        out.append(self.host.as_str());
        match self.port {
            Some(p) => {
                let colon: &str = ":";
                proof {
                    reveal_strlit(":");
                    assert(colon@ =~= seq![':']);
                }
                out.append(colon);
                let digits = u16_to_string(p);
                out.append(digits.as_str());
            },
            None => {},
        }
        out.append(self.path.as_str());
        proof {
            assert(out@ =~= spec_render(self@));
        }
        out
    }
}

impl Scheme {
    /// The textual prefix this scheme renders to, separator included.
    pub fn prefix(&self) -> (r: &'static str)
        ensures
            r@ == scheme_chars(*self) + seq![':', '/', '/'],
    {
        proof {
            reveal_strlit("http://");
            reveal_strlit("https://");
            reveal_strlit("file://");
            assert("http://"@ =~= http_chars() + seq![':', '/', '/']);
            assert("https://"@ =~= https_chars() + seq![':', '/', '/']);
            assert("file://"@ =~= file_chars() + seq![':', '/', '/']);
        }
        match self {
            Scheme::Http => "http://",
            Scheme::Https => "https://",
            Scheme::File => "file://",
        }
    }
}

fn slash_string() -> (r: String)
    ensures
        r@ =~= seq!['/'],
{
    let s: &str = "/";
    proof {
        reveal_strlit("/");
        assert(s@ =~= seq!['/']);
    }
    s.to_owned()
}

proof fn lemma_find_sep_from_first(s: Seq<char>, from: int, k: int)
    requires
        0 <= from <= k,
        sep_at(s, k),
        forall|j: int| from <= j < k ==> !sep_at(s, j),
    ensures
        find_sep_from(s, from) == Some(k),
    decreases k - from,
{
    if from < k {
        lemma_find_sep_from_first(s, from + 1, k);
    }
}

/// The shape every URL that came out of the parser has: no `:` or `/`
/// inside the host, and a non-empty path starting with `/`.
pub open spec fn parsed_shape(u: SpecUrl) -> bool {
    &&& forall|i: int| 0 <= i < u.host.len() ==> u.host[i] != ':' && (#[trigger] u.host[i]) != '/'
    &&& u.path.len() > 0
    &&& u.path[0] == '/'
}

/// Whatever the parser accepts has `parsed_shape`.
pub proof fn lemma_parse_shape(s: Seq<char>)
    ensures
        spec_parse(s) matches Ok(u) ==> parsed_shape(u),
{
    lemma_find_sep_from(s, 0);
    match find_sep_from(s, 0) {
        None => {},
        Some(se) => {
            let hs = se + 3;
            crate::text::lemma_find_char_from(s, '/', hs);
            crate::text::lemma_find_char_from(s, ':', hs);
            let he = match find_char_from(s, '/', hs) {
                Some(i) => i,
                None => s.len() as int,
            };
            assert(forall|j: int| hs <= j < he ==> s[j] != '/');
            match find_char_from(s, ':', hs) {
                Some(ci) => {
                    if ci < he {
                        assert(forall|j: int| hs <= j < ci ==> s[j] != ':');
                    }
                },
                None => {},
            }
        },
    }
}

/// Rendering a URL of parsed shape and parsing the text again yields the
/// URL itself: the same scheme, host, port and path.
pub proof fn lemma_parse_render_round_trip(u: SpecUrl)
    requires
        parsed_shape(u),
    ensures
        spec_parse(spec_render(u)) == Ok::<SpecUrl, SpecUrlError>(u),
{
    let sch = scheme_chars(u.scheme);
    let sep: Seq<char> = seq![':', '/', '/'];
    let portpart: Seq<char> = match u.port {
        Some(p) => seq![':'] + dec_digits(p as int),
        None => Seq::<char>::empty(),
    };
    let r = spec_render(u);
    let se = sch.len() as int;
    let hs = se + 3;
    let hp = hs + u.host.len() as int;
    let ps = hp + portpart.len() as int;
    assert(r =~= sch + sep + u.host + portpart + u.path);
    assert(r.len() == ps + u.path.len());
    if u.port is Some {
        let p = u.port.unwrap();
        crate::text::lemma_dec_digits_all_digits(p as int);
        assert(portpart.len() >= 2);
        assert(portpart[0] == ':');
        assert(forall|i: int|
            1 <= i < portpart.len() ==> crate::text::is_digit(#[trigger] portpart[i]));
    }
    // no scheme character is ':', so the first `://` stands at `se`
    assert(forall|j: int| 0 <= j < se ==> r[j] == sch[j]);
    assert(forall|j: int| 0 <= j < se ==> (#[trigger] sch[j]) != ':') by {
        match u.scheme {
            Scheme::Http => {
                assert(sch =~= http_chars());
            },
            Scheme::Https => {
                assert(sch =~= https_chars());
            },
            Scheme::File => {
                assert(sch =~= file_chars());
            },
        }
    }
    assert(sep_at(r, se));
    assert(forall|j: int| 0 <= j < se ==> !sep_at(r, j));
    lemma_find_sep_from_first(r, 0, se);
    assert(find_sep_from(r, 0) == Some(se));
    // the scheme characters read back as the same scheme
    assert(r.subrange(0, se) =~= sch);
    assert(scheme_of_chars(sch) == Some(u.scheme)) by {
        assert(http_chars().len() == 4 && https_chars().len() == 5 && file_chars().len() == 4);
        assert(http_chars()[0] == 'h' && file_chars()[0] == 'f');
        assert(http_chars() != file_chars());
    }
    // digits and host characters are not '/', so the first '/' from `hs`
    // is where the path starts
    assert(is_digit('/') == false) by {
        assert('/' as u32 == 47);
    }
    assert(':' != '/');
    assert(r[ps] == u.path[0]);
    assert(forall|j: int| hs <= j < ps ==> r[j] != '/') by {
        assert(forall|j: int| hs <= j < hp ==> r[j] == u.host[j - hs]);
        assert(forall|j: int| hp <= j < ps ==> r[j] == portpart[j - hp]);
    }
    crate::text::lemma_find_char_from_first(r, '/', hs, ps);
    assert(find_char_from(r, '/', hs) == Some(ps));
    assert(ps < r.len());
    assert(r.subrange(ps, r.len() as int) =~= u.path);
    // the port, when present, sits between the first ':' from `hs` and
    // the path; when absent there is no ':' before the path
    assert(is_digit(':') == false) by {
        assert(':' as u32 == 58);
    }
    match u.port {
        Some(p) => {
            assert(r[hp] == ':');
            assert(forall|j: int| hs <= j < hp ==> r[j] == u.host[j - hs]);
            crate::text::lemma_find_char_from_first(r, ':', hs, hp);
            assert(find_char_from(r, ':', hs) == Some(hp));
            assert(r.subrange(hp + 1, ps) =~= dec_digits(p as int)) by {
                assert(forall|j: int| hp + 1 <= j < ps ==> r[j] == portpart[j - hp]);
            }
            crate::text::lemma_digits_round_trip(p as int);
            assert(spec_parse_u16(dec_digits(p as int)) == Some(p));
            assert(r.subrange(hs, hp) =~= u.host);
            assert(spec_parse(r) == Ok::<SpecUrl, SpecUrlError>(u));
        },
        None => {
            assert(ps == hp);
            crate::text::lemma_find_char_from(r, ':', hs);
            match find_char_from(r, ':', hs) {
                Some(ci) => {
                    assert(ci >= ps) by {
                        if ci < ps {
                            assert(r[ci] == u.host[ci - hs]);
                        }
                    }
                },
                None => {},
            }
            assert(r.subrange(hs, ps) =~= u.host);
            assert(spec_parse(r) == Ok::<SpecUrl, SpecUrlError>(u));
        },
    }
}

/// URL round trip: rendering any URL the parser accepted, and parsing the
/// rendered text, gives the same scheme, host, port and path back.
pub proof fn lemma_url_round_trip(s: Seq<char>, u: SpecUrl)
    requires
        spec_parse(s) == Ok::<SpecUrl, SpecUrlError>(u),
    ensures
        spec_parse(spec_render(u)) == Ok::<SpecUrl, SpecUrlError>(u),
{
    lemma_parse_shape(s);
    lemma_parse_render_round_trip(u);
}


} // verus!
