//! The client's decision logic: the response value handed to callers, the
//! request errors, the connection cache keyed by (scheme class, host,
//! effective port), and the redirect state machine with its fixed hop
//! ceiling. All transport I/O lives outside the library; it performs the
//! transport plans made here and hands the resulting responses back.

use vstd::prelude::*;

use crate::headers::Headers;
use crate::text::{spec_trim, trim_str};
use crate::url::{spec_parse, Scheme, SpecUrl, SpecUrlError, Url, UrlError};

verus! {

/// How many redirect hops one request may follow before it fails.
pub const MAX_REDIRECTS: u16 = 128;

/// The body of a response: raw wire bytes, or text read from a file.
pub enum Body {
    Bytes(Vec<u8>),
    Text(String),
}

pub enum SpecBody {
    Bytes(Seq<u8>),
    Text(Seq<char>),
}

impl View for Body {
    type V = SpecBody;

    open spec fn view(&self) -> SpecBody {
        match self {
            Body::Bytes(b) => SpecBody::Bytes(b@),
            Body::Text(t) => SpecBody::Text(t@),
        }
    }
}

/// One HTTP response: status code, header table, body.
pub struct Response {
    pub status_code: u16,
    pub headers: Headers,
    pub body: Body,
}

pub struct SpecResponse {
    pub status_code: u16,
    pub headers: Map<Seq<char>, Seq<char>>,
    pub body: SpecBody,
}

impl View for Response {
    type V = SpecResponse;

    open spec fn view(&self) -> SpecResponse {
        SpecResponse { status_code: self.status_code, headers: self.headers@, body: self.body@ }
    }
}

/// Why a request failed.
#[derive(Debug, PartialEq, Eq)]
pub enum RequestError {
    /// A socket or file operation failed; the payload is its message.
    IOError(String),
    /// The TLS layer failed; the payload is its message.
    TlsError(String),
    /// The host name was not accepted as a TLS server name.
    InvalidDns(String),
    /// The status-line code is not a `u16`; the payload is the code text.
    InvalidStatusCode(String),
    /// A malformed status line or header line.
    BadHTTP,
    /// A redirect target failed to parse as a URL.
    BadRedirectUrl(String, UrlError),
    /// A redirect arrived with no hops left to follow.
    MaximumRedirects,
    /// A redirect arrived without a `Location` header.
    NoRedirectFound,
    /// A response arrived without a `Content-Length` header.
    MissingContentLength,
    /// The response declares a transfer or content encoding, which this
    /// client does not implement.
    UnsupportedEncoding,
}

pub enum SpecRequestError {
    IOError(Seq<char>),
    TlsError(Seq<char>),
    InvalidDns(Seq<char>),
    InvalidStatusCode(Seq<char>),
    BadHTTP,
    BadRedirectUrl(Seq<char>, SpecUrlError),
    MaximumRedirects,
    NoRedirectFound,
    MissingContentLength,
    UnsupportedEncoding,
}

impl View for RequestError {
    type V = SpecRequestError;

    open spec fn view(&self) -> SpecRequestError {
        match self {
            RequestError::IOError(m) => SpecRequestError::IOError(m@),
            RequestError::TlsError(m) => SpecRequestError::TlsError(m@),
            RequestError::InvalidDns(m) => SpecRequestError::InvalidDns(m@),
            RequestError::InvalidStatusCode(m) => SpecRequestError::InvalidStatusCode(m@),
            RequestError::BadHTTP => SpecRequestError::BadHTTP,
            RequestError::BadRedirectUrl(m, e) => SpecRequestError::BadRedirectUrl(m@, e@),
            RequestError::MaximumRedirects => SpecRequestError::MaximumRedirects,
            RequestError::NoRedirectFound => SpecRequestError::NoRedirectFound,
            RequestError::MissingContentLength => SpecRequestError::MissingContentLength,
            RequestError::UnsupportedEncoding => SpecRequestError::UnsupportedEncoding,
        }
    }
}

#[verifier::external_type_specification]
#[verifier::external_body]
pub struct ExUtf8Error(core::str::Utf8Error);

/// Relies on `core::str::from_utf8`: it succeeds exactly on the byte
/// sequences that vstd's UTF-8 model calls valid, and yields their
/// decoding.
pub assume_specification[ core::str::from_utf8 ](v: &[u8]) -> (r: Result<
    &str,
    core::str::Utf8Error,
>)
    ensures
        match r {
            Ok(s) => vstd::utf8::valid_utf8(v@) && s@ == vstd::utf8::decode_utf8(v@),
            Err(_) => !vstd::utf8::valid_utf8(v@),
        },
;

impl Body {
    /// The body as text: wire bytes decoded as UTF-8, file text as it is.
    pub fn as_str(&self) -> (r: Result<&str, core::str::Utf8Error>)
        ensures
            match self {
                Body::Bytes(b) => match r {
                    Ok(s) => vstd::utf8::valid_utf8(b@) && s@ == vstd::utf8::decode_utf8(b@),
                    Err(_) => !vstd::utf8::valid_utf8(b@),
                },
                Body::Text(t) => match r {
                    Ok(s) => s@ == t@,
                    Err(_) => false,
                },
            },
    {
        match self {
            Body::Bytes(bytes) => core::str::from_utf8(bytes.as_slice()),
            Body::Text(text) => Ok(text.as_str()),
        }
    }
}

/// The response a `file` URL yields: status 200, no headers, the file's
/// text; it never enters the redirect check.
pub fn file_response(text: String) -> (r: Response)
    ensures
        r.status_code == 200,
        r.headers@ == Map::<Seq<char>, Seq<char>>::empty(),
        r.headers.wf(),
        r.body@ == SpecBody::Text(text@),
{
    Response { status_code: 200, headers: Headers::new(), body: Body::Text(text) }
}

/// The key of a cached connection: scheme class, host, and the effective
/// port the transport was opened to.
pub struct ConnKey {
    pub https: bool,
    pub host: String,
    pub port: u16,
}

pub struct SpecConnKey {
    pub https: bool,
    pub host: Seq<char>,
    pub port: u16,
}

impl View for ConnKey {
    type V = SpecConnKey;

    open spec fn view(&self) -> SpecConnKey {
        SpecConnKey { https: self.https, host: self.host@, port: self.port }
    }
}

/// The port a request really connects to: the URL's, or the scheme's
/// default, 80 for `http` and 443 for `https`.
pub open spec fn spec_effective_port(u: SpecUrl) -> u16 {
    match u.port {
        Some(p) => p,
        None => if u.scheme == Scheme::Https {
            443
        } else {
            80
        },
    }
}

/// The cache key a URL's transport lives under.
pub open spec fn spec_request_key(u: SpecUrl) -> SpecConnKey {
    SpecConnKey { https: u.scheme == Scheme::Https, host: u.host, port: spec_effective_port(u) }
}

pub fn effective_port(url: &Url) -> (r: u16)
    ensures
        r == spec_effective_port(url@),
{
    match url.port() {
        Some(p) => p,
        None => match url.scheme() {
            Scheme::Https => 443,
            _ => 80,
        },
    }
}

/// What the transport layer must do for one request.
pub enum Plan {
    /// Read this filesystem path and wrap its text as a response.
    File { path: String },
    /// Write the request on the cached transport in this slot.
    Reuse { conn: usize },
    /// Open a transport to this key, then report it with `note_opened`.
    Open { key: ConnKey },
}

/// The connection cache: the keys of the transports a client holds open,
/// in opening order. Slot `i` of the view names the transport the caller
/// keeps in its own slot `i`; the cache never gives a slot up.
pub struct Client {
    conns: Vec<ConnKey>,
}

impl View for Client {
    type V = Seq<SpecConnKey>;

    closed spec fn view(&self) -> Seq<SpecConnKey> {
        self.conns@.map(|i: int, k: ConnKey| k@)
    }
}

impl Client {
    /// A client with no open connections.
    pub fn new() -> (r: Client)
        ensures
            r@ == Seq::<SpecConnKey>::empty(),
    {
        let r = Client { conns: Vec::new() };
        proof {
            assert(r@ =~= Seq::<SpecConnKey>::empty());
        }
        r
    }

    /// The slot of the cached connection under this key, if one is open.
    pub fn find_conn(&self, https: bool, host: &str, port: u16) -> (r: Option<usize>)
        ensures
            match r {
                Some(i) => i < self@.len() && self@[i as int] == (SpecConnKey {
                    https,
                    host: host@,
                    port,
                }),
                None => forall|i: int|
                    0 <= i < self@.len() ==> self@[i] != (SpecConnKey {
                        https,
                        host: host@,
                        port,
                    }),
            },
    {
        let n = self.conns.len();
        let mut i: usize = 0;
        while i < n
            invariant
                0 <= i <= n,
                n == self.conns.len(),
                self@.len() == n,
                forall|j: int|
                    0 <= j < i ==> self@[j] != (SpecConnKey { https, host: host@, port }),
            decreases n - i,
        {
            let k: &ConnKey = &self.conns[i];
            if k.https == https && k.port == port && crate::text::str_eq(k.host.as_str(), host) {
                assert(self@[i as int] == (SpecConnKey { https, host: host@, port }));
                return Some(i);
            }
            assert(self@[i as int] != (SpecConnKey { https, host: host@, port }));
            i = i + 1;
        }
        None
    }

    /// Records a connection the transport layer has opened; its slot is
    /// the old number of connections.
    pub fn note_opened(&mut self, key: ConnKey) -> (r: usize)
        ensures
            final(self)@ == old(self)@.push(key@),
            r == old(self)@.len(),
    {
        let r = self.conns.len();
        self.conns.push(key);
        proof {
            assert(self@ =~= old(self)@.push(key@));
        }
        r
    }

    /// How many connections the client holds open.
    pub fn open_connections(&self) -> (r: usize)
        ensures
            r == self@.len(),
    {
        self.conns.len()
    }

    /// The transport decision for one request: `file` URLs read from disk
    /// and touch no connection; otherwise the cached connection under the
    /// request's key is reused if present, and opened exactly when absent.
    pub fn plan_request(&self, url: &Url) -> (r: Plan)
        ensures
            match r {
                Plan::File { path } => url@.scheme == Scheme::File && path@ == url@.path,
                Plan::Reuse { conn } => url@.scheme != Scheme::File && conn < self@.len()
                    && self@[conn as int] == spec_request_key(url@),
                Plan::Open { key } => url@.scheme != Scheme::File && key@ == spec_request_key(url@)
                    && !self@.contains(spec_request_key(url@)),
            },
    {
        match url.scheme() {
            Scheme::File => Plan::File { path: url.path().to_owned() },
            _ => {
                let https = match url.scheme() {
                    Scheme::Https => true,
                    _ => false,
                };
                let port = effective_port(url);
                match self.find_conn(https, url.host(), port) {
                    Some(i) => Plan::Reuse { conn: i },
                    None => {
                        proof {
                            assert(!self@.contains(spec_request_key(url@))) by {
                                if self@.contains(spec_request_key(url@)) {
                                    let i = choose|i: int|
                                        0 <= i < self@.len() && self@[i] == spec_request_key(url@);
                                }
                            }
                        }
                        Plan::Open {
                            key: ConnKey { https, host: url.host().to_owned(), port },
                        }
                    },
                }
            },
        }
    }
}

/// What one response means for an in-flight chain.
pub enum FetchStep {
    /// The chain is over; this response goes to the caller.
    Finished(Response),
    /// A hop was consumed; fetch the chain's new current URL next.
    Redirected,
    /// The chain failed.
    Failed(RequestError),
}

/// The `Location` header name, the one header the redirect logic consumes.
pub open spec fn location_key() -> Seq<char> {
    seq!['L', 'o', 'c', 'a', 't', 'i', 'o', 'n']
}

/// Where a redirect from `u` with `Location` value `loc` goes: a trimmed
/// value starting with `/` replaces `u`'s path; anything else must parse
/// as a full URL on its own.
pub open spec fn spec_redirect_target(u: SpecUrl, loc: Seq<char>) -> Result<
    SpecUrl,
    SpecUrlError,
> {
    if spec_trim(loc).len() > 0 && spec_trim(loc)[0] == '/' {
        Ok(SpecUrl { path: spec_trim(loc), ..u })
    } else {
        spec_parse(loc)
    }
}

/// One in-flight request chain: the URL currently being fetched, and how
/// many redirect hops may still be followed.
pub struct Fetch {
    current: Url,
    remaining: u16,
}

impl Fetch {
    pub closed spec fn spec_url(&self) -> SpecUrl {
        self.current@
    }

    pub closed spec fn spec_remaining(&self) -> u16 {
        self.remaining
    }

    /// Starts a chain at `url` with the full hop budget.
    pub fn begin(url: &Url) -> (r: Fetch)
        ensures
            r.spec_url() == url@,
            r.spec_remaining() == MAX_REDIRECTS,
    {
        Fetch { current: url.duplicate(), remaining: MAX_REDIRECTS }
    }

    /// The URL to fetch next.
    pub fn url(&self) -> (r: &Url)
        ensures
            r@ == self.spec_url(),
    {
        &self.current
    }

    /// How many redirect hops are still allowed.
    pub fn hops_remaining(&self) -> (r: u16)
        ensures
            r == self.spec_remaining(),
    {
        self.remaining
    }

    /// Decides what a wire response means for the chain. A status outside
    /// [300, 400) finishes the chain with the response as it came. A
    /// redirect status with no hops left fails with `MaximumRedirects`;
    /// with no `Location` header it fails with `NoRedirectFound`; with a
    /// target that does not parse it fails with `BadRedirectUrl`; and
    /// otherwise it consumes the `Location` header and one hop, and moves
    /// the chain to the target.
    pub fn handle_redirect(&mut self, response: Response) -> (r: FetchStep)
        requires
            response.headers.wf(),
        ensures
            ({
                let u0 = old(self).spec_url();
                let rem0 = old(self).spec_remaining();
                let hdrs = response.headers@;
                if !(300 <= response.status_code < 400) {
                    &&& r == FetchStep::Finished(response)
                    &&& final(self).spec_url() == u0
                    &&& final(self).spec_remaining() == rem0
                } else if rem0 == 0 {
                    &&& r == FetchStep::Failed(RequestError::MaximumRedirects)
                    &&& final(self).spec_url() == u0
                    &&& final(self).spec_remaining() == rem0
                } else if !hdrs.contains_key(location_key()) {
                    &&& r == FetchStep::Failed(RequestError::NoRedirectFound)
                    &&& final(self).spec_url() == u0
                    &&& final(self).spec_remaining() == rem0
                } else {
                    match spec_redirect_target(u0, hdrs[location_key()]) {
                        Ok(t) => {
                            &&& r == FetchStep::Redirected
                            &&& final(self).spec_url() == t
                            &&& final(self).spec_remaining() == rem0 - 1
                        },
                        Err(pe) => {
                            &&& (r matches FetchStep::Failed(e) && e@
                                == SpecRequestError::BadRedirectUrl(hdrs[location_key()], pe))
                            &&& final(self).spec_url() == u0
                            &&& final(self).spec_remaining() == rem0
                        },
                    }
                }
            }),
    {
        if response.status_code >= 300 && response.status_code < 400 {
            if self.remaining == 0 {
                return FetchStep::Failed(RequestError::MaximumRedirects);
            }
            let mut response = response;
            let location_name: &str = "Location";
            proof {
                reveal_strlit("Location");
                assert(location_name@ =~= location_key());
            }
            match response.headers.remove(location_name) {
                Some(location) => {
                    let trimmed = trim_str(location.as_str());
                    let slash = trimmed.as_str().unicode_len() > 0 && trimmed.as_str().get_char(0)
                        == '/';
                    if slash {
                        let target = self.current.with_path(trimmed);
                        self.current = target;
                        self.remaining = self.remaining - 1;
                        FetchStep::Redirected
                    } else {
                        match Url::new(location.clone()) {
                            Ok(u) => {
                                self.current = u;
                                self.remaining = self.remaining - 1;
                                FetchStep::Redirected
                            },
                            Err(e) => FetchStep::Failed(RequestError::BadRedirectUrl(location, e)),
                        }
                    }
                },
                None => FetchStep::Failed(RequestError::NoRedirectFound),
            }
        } else {
            FetchStep::Finished(response)
        }
    }
}

} // verus!
