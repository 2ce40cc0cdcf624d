//! The wire codec: formatting the GET request text, and parsing a response
//! from the bytes a transport has delivered so far. Receiving is
//! incremental: `recv_response` looks at everything received up to now and
//! says whether more bytes are needed, what the complete response is and
//! how many bytes it consumed, or why the stream is malformed.

use vstd::prelude::*;
use vstd::slice::{slice_subrange, slice_to_vec};
use vstd::utf8::{decode_utf8, valid_utf8};

use crate::client::{Body, RequestError, Response, SpecBody, SpecRequestError, SpecResponse};
use crate::headers::Headers;
use crate::text::{
    find_char, find_char_from, parse_u16, parse_u32, spec_parse_u16, spec_parse_u32, spec_trim,
    trim_str,
};
use crate::url::{SpecUrl, Url};

verus! {

/// One header line as it goes on the wire.
pub open spec fn spec_header_line(k: Seq<char>, v: Seq<char>) -> Seq<char> {
    k + ": "@ + v + "\r\n"@
}

/// The full request text for a GET of `u`: the request line, the `Host`
/// and `User-Agent` headers, and the blank line; no body.
pub open spec fn spec_request(u: SpecUrl) -> Seq<char> {
    "GET "@ + u.path + " HTTP/1.1\r\n"@ + spec_header_line("Host"@, u.host) + spec_header_line(
        "User-Agent"@,
        "shelves"@,
    ) + "\r\n"@
}

/// Renders one `key: value` header line.
pub fn header_line(key: &str, value: &str) -> (r: String)
    ensures
        r@ == spec_header_line(key@, value@),
{
    let mut out = key.to_owned();
    out.append(": ");
    out.append(value);
    out.append("\r\n");
    proof {
        assert(out@ =~= spec_header_line(key@, value@));
    }
    out
}

/// Renders the GET request for `url`, exactly as `spec_request` says; the
/// transport writes these characters, UTF-8 encoded, and nothing else.
pub fn send_get(url: &Url) -> (r: String)
    ensures
        r@ == spec_request(url@),
{
    let mut out = "GET ".to_owned();
    out.append(url.path());
    out.append(" HTTP/1.1\r\n");
    let host = header_line("Host", url.host());
    out.append(host.as_str());
    let agent = header_line("User-Agent", "shelves");
    out.append(agent.as_str());
    out.append("\r\n");
    proof {
        assert(out@ =~= spec_request(url@));
    }
    out
}

/// First index at or after `from` holding byte `b`.
pub open spec fn find_byte_from(s: Seq<u8>, b: u8, from: int) -> Option<int>
    decreases s.len() - from when 0 <= from
{
    if from >= s.len() {
        None
    } else if s[from] == b {
        Some(from)
    } else {
        find_byte_from(s, b, from + 1)
    }
}

pub proof fn lemma_find_byte_from(s: Seq<u8>, b: u8, from: int)
    requires
        0 <= from <= s.len(),
    ensures
        match find_byte_from(s, b, from) {
            Some(i) => from <= i < s.len() && s[i] == b && forall|j: int|
                from <= j < i ==> s[j] != b,
            None => forall|j: int| from <= j < s.len() ==> s[j] != b,
        },
    decreases s.len() - from,
{
    if from < s.len() && s[from] != b {
        lemma_find_byte_from(s, b, from + 1);
    }
}

pub fn find_byte(data: &[u8], b: u8, from: usize) -> (r: Option<usize>)
    requires
        from <= data@.len(),
    ensures
        match r {
            Some(i) => find_byte_from(data@, b, from as int) == Some(i as int),
            None => find_byte_from(data@, b, from as int) is None,
        },
{
    let n: usize = data.len();
    let mut i: usize = from;
    while i < n
        invariant
            from <= i <= n,
            n == data@.len(),
            find_byte_from(data@, b, from as int) == find_byte_from(data@, b, i as int),
        decreases n - i,
    {
        if data[i] == b {
            return Some(i);
        }
        i = i + 1;
    }
    None
}

/// First index at or after `i` where `: ` occurs.
pub open spec fn find_colsp_from(s: Seq<char>, i: int) -> Option<int>
    decreases s.len() - i when 0 <= i
{
    if i + 2 > s.len() {
        None
    } else if s[i] == ':' && s[i + 1] == ' ' {
        Some(i)
    } else {
        find_colsp_from(s, i + 1)
    }
}

fn find_colsp(s: &str) -> (r: Option<usize>)
    ensures
        match r {
            Some(i) => find_colsp_from(s@, 0) == Some(i as int) && i + 2 <= s@.len(),
            None => find_colsp_from(s@, 0) is None,
        },
{
    let n: usize = s.unicode_len();
    if n < 2 {
        return None;
    }
    let mut i: usize = 0;
    while i <= n - 2
        invariant
            0 <= i <= n,
            2 <= n,
            n == s@.len(),
            find_colsp_from(s@, 0) == find_colsp_from(s@, i as int),
        decreases n - i,
    {
        if s.get_char(i) == ':' && s.get_char(i + 1) == ' ' {
            return Some(i);
        }
        i = i + 1;
    }
    None
}

/// A trimmed header line split at its first `: `, name then value.
pub open spec fn spec_split_header(t: Seq<char>) -> Option<(Seq<char>, Seq<char>)> {
    match find_colsp_from(t, 0) {
        None => None,
        Some(i) => Some((t.subrange(0, i), t.subrange(i + 2, t.len() as int))),
    }
}

/// One step of receiving: the bytes seen so far either call for more, or
/// complete a response while consuming `used` bytes and leaving the rest
/// on the stream, or show a fault.
pub enum RecvStep {
    NeedMore,
    Done { response: Response, used: usize },
    Failed(RequestError),
}

pub enum SpecRecv {
    NeedMore,
    Done { response: SpecResponse, used: int },
    Failed(SpecRequestError),
}

impl View for RecvStep {
    type V = SpecRecv;

    open spec fn view(&self) -> SpecRecv {
        match self {
            RecvStep::NeedMore => SpecRecv::NeedMore,
            RecvStep::Done { response, used } => SpecRecv::Done {
                response: response@,
                used: *used as int,
            },
            RecvStep::Failed(e) => SpecRecv::Failed(e@),
        }
    }
}

/// The body phase: past the blank line at `hdr_end`, a declared encoding
/// is refused, `Content-Length` is owed and must be a `u32`, and exactly
/// that many body bytes are consumed, no more.
pub open spec fn spec_recv_body(
    data: Seq<u8>,
    hdr_end: int,
    status: u16,
    hdrs: Map<Seq<char>, Seq<char>>,
) -> SpecRecv {
    if hdrs.contains_key("transfer-encoding"@) || hdrs.contains_key("content-encoding"@) {
        SpecRecv::Failed(SpecRequestError::UnsupportedEncoding)
    } else if !hdrs.contains_key("Content-Length"@) {
        SpecRecv::Failed(SpecRequestError::MissingContentLength)
    } else {
        match spec_parse_u32(hdrs["Content-Length"@]) {
            None => SpecRecv::Failed(SpecRequestError::BadHTTP),
            Some(cl) => if data.len() < hdr_end + cl {
                SpecRecv::NeedMore
            } else {
                SpecRecv::Done {
                    response: SpecResponse {
                        status_code: status,
                        headers: hdrs,
                        body: SpecBody::Bytes(data.subrange(hdr_end, hdr_end + cl)),
                    },
                    used: hdr_end + cl,
                }
            },
        }
    }
}

/// The header phase: lines end at `\n` and must be UTF-8; a blank line
/// (after trimming) ends the phase; any other line must split at `: `,
/// and a name seen again replaces the earlier value.
pub open spec fn spec_recv_headers(
    data: Seq<u8>,
    pos: int,
    status: u16,
    acc: Map<Seq<char>, Seq<char>>,
) -> SpecRecv
    decreases data.len() - pos when 0 <= pos via spec_recv_headers_decreases
{
    match find_byte_from(data, 10, pos) {
        None => SpecRecv::NeedMore,
        Some(nl) => {
            let line = data.subrange(pos, nl + 1);
            if !valid_utf8(line) {
                SpecRecv::Failed(SpecRequestError::BadHTTP)
            } else {
                let t = spec_trim(decode_utf8(line));
                if t.len() == 0 {
                    spec_recv_body(data, nl + 1, status, acc)
                } else {
                    match spec_split_header(t) {
                        None => SpecRecv::Failed(SpecRequestError::BadHTTP),
                        Some(kv) => spec_recv_headers(data, nl + 1, status, acc.insert(kv.0, kv.1)),
                    }
                }
            }
        },
    }
}

#[via_fn]
proof fn spec_recv_headers_decreases(
    data: Seq<u8>,
    pos: int,
    status: u16,
    acc: Map<Seq<char>, Seq<char>>,
) {
    if pos <= data.len() {
        lemma_find_byte_from(data, 10, pos);
    }
}

/// What the bytes received so far mean. The status line runs to the first
/// `\n`, must be UTF-8, and must hold two spaces: protocol version, then
/// the status code, then the rest; a code that is not a `u16` names
/// itself in `InvalidStatusCode`. Then headers, then the body.
pub open spec fn spec_recv(data: Seq<u8>) -> SpecRecv {
    match find_byte_from(data, 10, 0) {
        None => SpecRecv::NeedMore,
        Some(nl) => {
            let line = data.subrange(0, nl + 1);
            if !valid_utf8(line) {
                SpecRecv::Failed(SpecRequestError::BadHTTP)
            } else {
                let chars = decode_utf8(line);
                match find_char_from(chars, ' ', 0) {
                    None => SpecRecv::Failed(SpecRequestError::BadHTTP),
                    Some(sp1) => match find_char_from(chars, ' ', sp1 + 1) {
                        None => SpecRecv::Failed(SpecRequestError::BadHTTP),
                        Some(sp2) => {
                            let code = chars.subrange(sp1 + 1, sp2);
                            match spec_parse_u16(code) {
                                None => SpecRecv::Failed(
                                    SpecRequestError::InvalidStatusCode(code),
                                ),
                                Some(status) => spec_recv_headers(
                                    data,
                                    nl + 1,
                                    status,
                                    Map::empty(),
                                ),
                            }
                        },
                    },
                }
            }
        },
    }
}

/// Parses the bytes received so far, exactly as `spec_recv` describes.
/// On `Done`, `used` bytes are consumed and any bytes after them are left
/// untouched for the next response on the same transport.
pub fn recv_response(data: &[u8]) -> (r: RecvStep)
    ensures
        r@ == spec_recv(data@),
        r matches RecvStep::Done { response, used } ==> response.headers.wf() && used
            <= data@.len(),
{
    let n: usize = data.len();
    let nl0: usize = match find_byte(data, 10, 0) {
        None => {
            return RecvStep::NeedMore;
        },
        Some(i) => i,
    };
    proof {
        lemma_find_byte_from(data@, 10, 0);
    }
    let line0: &[u8] = slice_subrange(data, 0, nl0 + 1);
    let status_line: &str = match core::str::from_utf8(line0) {
        Err(_) => {
            return RecvStep::Failed(RequestError::BadHTTP);
        },
        Ok(s) => s,
    };
    let m: usize = status_line.unicode_len();
    proof {
        crate::text::lemma_find_char_from(status_line@, ' ', 0);
    }
    let sp1: usize = match find_char(status_line, ' ', 0) {
        None => {
            return RecvStep::Failed(RequestError::BadHTTP);
        },
        Some(i) => i,
    };
    assert(sp1 < m);
    proof {
        crate::text::lemma_find_char_from(status_line@, ' ', sp1 + 1);
    }
    let sp2: usize = match find_char(status_line, ' ', sp1 + 1) {
        None => {
            return RecvStep::Failed(RequestError::BadHTTP);
        },
        Some(i) => i,
    };
    let code_str: &str = status_line.substring_char(sp1 + 1, sp2);
    let status: u16 = match parse_u16(code_str) {
        None => {
            return RecvStep::Failed(RequestError::InvalidStatusCode(code_str.to_owned()));
        },
        Some(v) => v,
    };
    let mut pos: usize = nl0 + 1;
    let mut headers = Headers::new();
    assert(spec_recv(data@) == spec_recv_headers(data@, pos as int, status, headers@));
    loop
        invariant_except_break
            n == data@.len(),
            headers.wf(),
            pos <= n,
            spec_recv(data@) == spec_recv_headers(data@, pos as int, status, headers@),
        ensures
            pos <= n,
            headers.wf(),
            spec_recv(data@) == spec_recv_body(data@, pos as int, status, headers@),
        decreases n - pos,
    {
        let ghost pos0 = pos as int;
        let nl: usize = match find_byte(data, 10, pos) {
            None => {
                return RecvStep::NeedMore;
            },
            Some(i) => i,
        };
        proof {
            lemma_find_byte_from(data@, 10, pos as int);
        }
        let line: &[u8] = slice_subrange(data, pos, nl + 1);
        let line_str: &str = match core::str::from_utf8(line) {
            Err(_) => {
                return RecvStep::Failed(RequestError::BadHTTP);
            },
            Ok(s) => s,
        };
        let t = trim_str(line_str);
        if t.as_str().is_empty() {
            proof {
                assert(spec_recv_headers(data@, pos0, status, headers@) == spec_recv_body(
                    data@,
                    nl + 1,
                    status,
                    headers@,
                ));
            }
            pos = nl + 1;
            break;
        }
        let ci: usize = match find_colsp(t.as_str()) {
            None => {
                return RecvStep::Failed(RequestError::BadHTTP);
            },
            Some(i) => i,
        };
        let tlen: usize = t.as_str().unicode_len();
        let name = t.as_str().substring_char(0, ci).to_owned();
        let value = t.as_str().substring_char(ci + 2, tlen).to_owned();
        let ghost pre = headers@;
        headers.insert(name, value);
        proof {
            assert(spec_split_header(t@) == Some((name@, value@)));
            assert(spec_recv_headers(data@, pos0, status, pre) == spec_recv_headers(
                data@,
                nl + 1,
                status,
                pre.insert(name@, value@),
            ));
        }
        pos = nl + 1;
    }
    if headers.contains("transfer-encoding") || headers.contains("content-encoding") {
        return RecvStep::Failed(RequestError::UnsupportedEncoding);
    }
    let cl_text: &String = match headers.get("Content-Length") {
        None => {
            return RecvStep::Failed(RequestError::MissingContentLength);
        },
        Some(v) => v,
    };
    let cl: u32 = match parse_u32(cl_text.as_str()) {
        None => {
            return RecvStep::Failed(RequestError::BadHTTP);
        },
        Some(v) => v,
    };
    let cl_len: usize = cl as usize;
    if n - pos < cl_len {
        return RecvStep::NeedMore;
    }
    let body_bytes = slice_to_vec(slice_subrange(data, pos, pos + cl_len));
    RecvStep::Done {
        response: Response { status_code: status, headers, body: Body::Bytes(body_bytes) },
        used: pos + cl_len,
    }
}


} // verus!
