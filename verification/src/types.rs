//! Message types shared by the codecs and dispatchers: protocol versions,
//! request methods, and the request and response heads.

use crate::header::{bytes_eq, HeaderMap};
use vstd::prelude::*;

verus! {

/// The HTTP protocol versions the runtime distinguishes.
#[derive(Copy, Clone, PartialEq, Eq, Structural, Debug)]
pub enum Version {
    Http10,
    Http11,
    Http2,
    Http3,
}

/// The request methods the codec accepts.
#[derive(Copy, Clone, PartialEq, Eq, Structural, Debug)]
pub enum Method {
    Get,
    Head,
    Post,
    Put,
    Delete,
    Connect,
    Options,
    Trace,
    Patch,
}

impl Default for Method {
    /// The default method is GET.
    fn default() -> (r: Self)
        ensures
            r == Method::Get,
    {
        Method::Get
    }
}

/// A declared body length: none at all, a known byte count, or a stream of
/// unknown length.
#[derive(Copy, Clone, PartialEq, Eq, Structural, Debug)]
pub enum BodySize {
    /// No body belongs to the message.
    Empty,
    /// Exactly this many bytes follow.
    Fixed(usize),
    /// A body follows but its length is unknown.
    Stream,
}

/// The head of a request: method, target, version and headers.
pub struct RequestHead {
    pub method: Method,
    pub uri: Vec<u8>,
    pub version: Version,
    pub headers: HeaderMap,
}

/// The head of a response: status, version and headers.
pub struct ResponseHead {
    pub status: u16,
    pub version: Version,
    pub headers: HeaderMap,
}

/// The ALPN protocol identifier of HTTP/2.
pub open spec fn spec_h2_alpn() -> Seq<u8> {
    seq![104u8, 50u8]
}

/// The protocol version an ALPN identifier selects: `h2` picks HTTP/2 and
/// anything else, or no identifier at all, falls back to HTTP/1.1.
pub fn version_from_alpn(alpn: Option<&[u8]>) -> (r: Version)
    ensures
        r == match alpn {
            Some(p) => if p@ == spec_h2_alpn() {
                Version::Http2
            } else {
                Version::Http11
            },
            None => Version::Http11,
        },
{
    match alpn {
        Some(p) => {
            let h2: Vec<u8> = vec![104u8, 50u8];
            proof {
                assert(h2@ =~= spec_h2_alpn());
            }
            if bytes_eq(p, h2.as_slice()) {
                Version::Http2
            } else {
                Version::Http11
            }
        },
        None => Version::Http11,
    }
}

} // verus!
