//! A minimal HTTP(S) fetching core: a URL parser, a header table, a wire
//! codec for HTTP/1.1 GET exchanges, and the decision logic of a client
//! that caches connections per (scheme class, host, port) and follows
//! redirects up to a fixed bound. All network transport stays outside
//! this crate; the library works on plain bytes and strings and states
//! exactly what it computes.

pub mod client;
pub mod codec;
pub mod headers;
pub mod text;
pub mod url;
