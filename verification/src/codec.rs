//! The HTTP/1 request codec: scanning and parsing of the request line and
//! the header lines, the body-framing decision, the connection-type policy,
//! and the response-head and chunked-body encoders.
//!
//! Every parser has a deterministic specification-level mirror; the
//! executable code is proved to return exactly what the mirror says.

use crate::digits::{dec_digits, dec_value, is_dec_digits, parse_dec_usize, u64_to_dec};
use crate::error::ProtoError;
use crate::header::{
    bytes_eq, chunked_value, connection, content_length, copy_range, date_header,
    eq_ignore_ascii_case, expect_header, first_value, has_name, keep_alive_value, close_value,
    pair_seconds, spec_upgrade_value, upgrade_value,
    lemma_known_names_lowercase, lower_seq, spec_chunked_value, spec_close_value,
    spec_connection, spec_content_length, spec_continue_value, spec_date_header,
    spec_expect_header, spec_keep_alive_value, spec_transfer_encoding, spec_upgrade_header,
    continue_value, transfer_encoding, upgrade_header, view_contains, HeaderMap,
};
use crate::types::{BodySize, Method, RequestHead, Version};
use crate::buf::extend_from_slice;
use crate::context::ConnectionType;
use vstd::prelude::*;

verus! {

/// Carriage return.
pub const CR: u8 = 13;

/// Line feed.
pub const LF: u8 = 10;

/// Space.
pub const SP: u8 = 32;

/// Horizontal tab.
pub const HTAB: u8 = 9;

/// Colon.
pub const COLON: u8 = 58;

/// The index of the first occurrence of `b` at or after `from`, or the
/// length of `s` when there is none.
pub open spec fn spec_find_byte(s: Seq<u8>, b: u8, from: int) -> int
    decreases s.len() - from when 0 <= from <= s.len()
{
    if from >= s.len() {
        s.len() as int
    } else if s[from] == b {
        from
    } else {
        spec_find_byte(s, b, from + 1)
    }
}

/// Find the first occurrence of `b` at or after `from`.
#[verifier::loop_isolation(false)]
pub fn find_byte(s: &[u8], b: u8, from: usize) -> (r: usize)
    requires
        from <= s@.len(),
    ensures
        r == spec_find_byte(s@, b, from as int),
        from <= r <= s@.len(),
        r < s@.len() ==> s@[r as int] == b,
    decreases s@.len() - from,
{
    if from >= s.len() {
        s.len()
    } else if s[from] == b {
        from
    } else {
        find_byte(s, b, from + 1)
    }
}

/// The index of the first CRLF pair at or after `from`, or the length of
/// `s` when there is none.
pub open spec fn spec_find_crlf(s: Seq<u8>, from: int) -> int
    decreases s.len() - from when 0 <= from <= s.len()
{
    if from + 2 > s.len() {
        s.len() as int
    } else if s[from] == CR && s[from + 1] == LF {
        from
    } else {
        spec_find_crlf(s, from + 1)
    }
}

/// Find the first CRLF pair at or after `from`.
pub fn find_crlf(s: &[u8], from: usize) -> (r: usize)
    requires
        from <= s@.len(),
    ensures
        r == spec_find_crlf(s@, from as int),
        from <= r <= s@.len(),
        r < s@.len() ==> (r + 2 <= s@.len() && s@[r as int] == CR && s@[r as int + 1] == LF),
    decreases s@.len() - from,
{
    if s.len() < 2 || from > s.len() - 2 {
        s.len()
    } else if s[from] == CR && s[from + 1] == LF {
        from
    } else {
        find_crlf(s, from + 1)
    }
}

/// The bytes of `GET`.
pub open spec fn spec_get_bytes() -> Seq<u8> {
    seq![71u8, 69u8, 84u8]
}

/// The bytes of `GET`.
fn get_bytes() -> (r: Vec<u8>)
    ensures
        r@ == spec_get_bytes(),
{
    let v: Vec<u8> = vec![71u8, 69u8, 84u8];
    proof {
        assert(v@ =~= spec_get_bytes());
    }
    v
}

/// The bytes of `HEAD`.
pub open spec fn spec_head_m_bytes() -> Seq<u8> {
    seq![72u8, 69u8, 65u8, 68u8]
}

/// The bytes of `HEAD`.
fn head_m_bytes() -> (r: Vec<u8>)
    ensures
        r@ == spec_head_m_bytes(),
{
    let v: Vec<u8> = vec![72u8, 69u8, 65u8, 68u8];
    proof {
        assert(v@ =~= spec_head_m_bytes());
    }
    v
}

/// The bytes of `POST`.
pub open spec fn spec_post_bytes() -> Seq<u8> {
    seq![80u8, 79u8, 83u8, 84u8]
}

/// The bytes of `POST`.
fn post_bytes() -> (r: Vec<u8>)
    ensures
        r@ == spec_post_bytes(),
{
    let v: Vec<u8> = vec![80u8, 79u8, 83u8, 84u8];
    proof {
        assert(v@ =~= spec_post_bytes());
    }
    v
}

/// The bytes of `PUT`.
pub open spec fn spec_put_bytes() -> Seq<u8> {
    seq![80u8, 85u8, 84u8]
}

/// The bytes of `PUT`.
fn put_bytes() -> (r: Vec<u8>)
    ensures
        r@ == spec_put_bytes(),
{
    let v: Vec<u8> = vec![80u8, 85u8, 84u8];
    proof {
        assert(v@ =~= spec_put_bytes());
    }
    v
}

/// The bytes of `DELETE`.
pub open spec fn spec_delete_bytes() -> Seq<u8> {
    seq![68u8, 69u8, 76u8, 69u8, 84u8, 69u8]
}

/// The bytes of `DELETE`.
fn delete_bytes() -> (r: Vec<u8>)
    ensures
        r@ == spec_delete_bytes(),
{
    let v: Vec<u8> = vec![68u8, 69u8, 76u8, 69u8, 84u8, 69u8];
    proof {
        assert(v@ =~= spec_delete_bytes());
    }
    v
}

/// The bytes of `CONNECT`.
pub open spec fn spec_connect_m_bytes() -> Seq<u8> {
    seq![67u8, 79u8, 78u8, 78u8, 69u8, 67u8, 84u8]
}

/// The bytes of `CONNECT`.
fn connect_m_bytes() -> (r: Vec<u8>)
    ensures
        r@ == spec_connect_m_bytes(),
{
    let v: Vec<u8> = vec![67u8, 79u8, 78u8, 78u8, 69u8, 67u8, 84u8];
    proof {
        assert(v@ =~= spec_connect_m_bytes());
    }
    v
}

/// The bytes of `OPTIONS`.
pub open spec fn spec_options_bytes() -> Seq<u8> {
    seq![79u8, 80u8, 84u8, 73u8, 79u8, 78u8, 83u8]
}

/// The bytes of `OPTIONS`.
fn options_bytes() -> (r: Vec<u8>)
    ensures
        r@ == spec_options_bytes(),
{
    let v: Vec<u8> = vec![79u8, 80u8, 84u8, 73u8, 79u8, 78u8, 83u8];
    proof {
        assert(v@ =~= spec_options_bytes());
    }
    v
}

/// The bytes of `TRACE`.
pub open spec fn spec_trace_bytes() -> Seq<u8> {
    seq![84u8, 82u8, 65u8, 67u8, 69u8]
}

/// The bytes of `TRACE`.
fn trace_bytes() -> (r: Vec<u8>)
    ensures
        r@ == spec_trace_bytes(),
{
    let v: Vec<u8> = vec![84u8, 82u8, 65u8, 67u8, 69u8];
    proof {
        assert(v@ =~= spec_trace_bytes());
    }
    v
}

/// The bytes of `PATCH`.
pub open spec fn spec_patch_bytes() -> Seq<u8> {
    seq![80u8, 65u8, 84u8, 67u8, 72u8]
}

/// The bytes of `PATCH`.
fn patch_bytes() -> (r: Vec<u8>)
    ensures
        r@ == spec_patch_bytes(),
{
    let v: Vec<u8> = vec![80u8, 65u8, 84u8, 67u8, 72u8];
    proof {
        assert(v@ =~= spec_patch_bytes());
    }
    v
}

/// The bytes of `HTTP/1.0`.
pub open spec fn spec_http10_bytes() -> Seq<u8> {
    seq![72u8, 84u8, 84u8, 80u8, 47u8, 49u8, 46u8, 48u8]
}

/// The bytes of `HTTP/1.0`.
fn http10_bytes() -> (r: Vec<u8>)
    ensures
        r@ == spec_http10_bytes(),
{
    let v: Vec<u8> = vec![72u8, 84u8, 84u8, 80u8, 47u8, 49u8, 46u8, 48u8];
    proof {
        assert(v@ =~= spec_http10_bytes());
    }
    v
}

/// The bytes of `HTTP/1.1`.
pub open spec fn spec_http11_bytes() -> Seq<u8> {
    seq![72u8, 84u8, 84u8, 80u8, 47u8, 49u8, 46u8, 49u8]
}

/// The bytes of `HTTP/1.1`.
fn http11_bytes() -> (r: Vec<u8>)
    ensures
        r@ == spec_http11_bytes(),
{
    let v: Vec<u8> = vec![72u8, 84u8, 84u8, 80u8, 47u8, 49u8, 46u8, 49u8];
    proof {
        assert(v@ =~= spec_http11_bytes());
    }
    v
}
/// The method a token names, if any.
pub open spec fn spec_parse_method(s: Seq<u8>) -> Option<Method> {
    if s == spec_get_bytes() {
        Some(Method::Get)
    } else if s == spec_head_m_bytes() {
        Some(Method::Head)
    } else if s == spec_post_bytes() {
        Some(Method::Post)
    } else if s == spec_put_bytes() {
        Some(Method::Put)
    } else if s == spec_delete_bytes() {
        Some(Method::Delete)
    } else if s == spec_connect_m_bytes() {
        Some(Method::Connect)
    } else if s == spec_options_bytes() {
        Some(Method::Options)
    } else if s == spec_trace_bytes() {
        Some(Method::Trace)
    } else if s == spec_patch_bytes() {
        Some(Method::Patch)
    } else {
        None
    }
}

/// Parse a method token.
pub fn parse_method(s: &[u8]) -> (r: Option<Method>)
    ensures
        r == spec_parse_method(s@),
{
    if bytes_eq(s, get_bytes().as_slice()) {
        Some(Method::Get)
    } else if bytes_eq(s, head_m_bytes().as_slice()) {
        Some(Method::Head)
    } else if bytes_eq(s, post_bytes().as_slice()) {
        Some(Method::Post)
    } else if bytes_eq(s, put_bytes().as_slice()) {
        Some(Method::Put)
    } else if bytes_eq(s, delete_bytes().as_slice()) {
        Some(Method::Delete)
    } else if bytes_eq(s, connect_m_bytes().as_slice()) {
        Some(Method::Connect)
    } else if bytes_eq(s, options_bytes().as_slice()) {
        Some(Method::Options)
    } else if bytes_eq(s, trace_bytes().as_slice()) {
        Some(Method::Trace)
    } else if bytes_eq(s, patch_bytes().as_slice()) {
        Some(Method::Patch)
    } else {
        None
    }
}

/// The HTTP/1 version a token names, if any.
pub open spec fn spec_parse_version(s: Seq<u8>) -> Option<Version> {
    if s == spec_http10_bytes() {
        Some(Version::Http10)
    } else if s == spec_http11_bytes() {
        Some(Version::Http11)
    } else {
        None
    }
}

/// Parse an HTTP/1 version token.
pub fn parse_version(s: &[u8]) -> (r: Option<Version>)
    ensures
        r == spec_parse_version(s@),
{
    if bytes_eq(s, http10_bytes().as_slice()) {
        Some(Version::Http10)
    } else if bytes_eq(s, http11_bytes().as_slice()) {
        Some(Version::Http11)
    } else {
        None
    }
}

/// What a request line `METHOD SP URI SP VERSION` denotes: the line is
/// split at its first two spaces; the method and version tokens must be
/// known and the target must not be empty.
pub open spec fn spec_parse_request_line(s: Seq<u8>) -> Option<(Method, Seq<u8>, Version)> {
    let i = spec_find_byte(s, SP, 0);
    if i >= s.len() {
        None
    } else {
        let j = spec_find_byte(s, SP, i + 1);
        if j >= s.len() || j == i + 1 {
            None
        } else {
            let m = spec_parse_method(s.subrange(0, i));
            let v = spec_parse_version(s.subrange(j + 1, s.len() as int));
            if m is Some && v is Some {
                Some((m->0, s.subrange(i + 1, j), v->0))
            } else {
                None
            }
        }
    }
}

/// Parse a request line (without its CRLF).
pub fn parse_request_line(s: &[u8]) -> (r: Result<(Method, Vec<u8>, Version), ProtoError>)
    ensures
        match r {
            Ok((m, uri, v)) => spec_parse_request_line(s@) == Some((m, uri@, v)),
            Err(e) => spec_parse_request_line(s@) is None && e == ProtoError::InvalidRequestLine,
        },
{
    let i = find_byte(s, SP, 0);
    if i >= s.len() {
        return Err(ProtoError::InvalidRequestLine);
    }
    let j = find_byte(s, SP, i + 1);
    if j >= s.len() || j == i + 1 {
        return Err(ProtoError::InvalidRequestLine);
    }
    let mtok = copy_range(s, 0, i);
    let m = parse_method(mtok.as_slice());
    let vtok = copy_range(s, j + 1, s.len());
    let v = parse_version(vtok.as_slice());
    match (m, v) {
        (Some(m), Some(v)) => {
            let uri = copy_range(s, i + 1, j);
            Ok((m, uri, v))
        },
        _ => Err(ProtoError::InvalidRequestLine),
    }
}

/// The first index at or after `from` whose byte is not a space or tab.
pub open spec fn spec_skip_ows(s: Seq<u8>, from: int) -> int
    decreases s.len() - from when 0 <= from <= s.len()
{
    if from >= s.len() {
        s.len() as int
    } else if s[from] == SP || s[from] == HTAB {
        spec_skip_ows(s, from + 1)
    } else {
        from
    }
}

/// Skip optional whitespace forward from `from`.
pub fn skip_ows(s: &[u8], from: usize) -> (r: usize)
    requires
        from <= s@.len(),
    ensures
        r == spec_skip_ows(s@, from as int),
        from <= r <= s@.len(),
    decreases s@.len() - from,
{
    if from >= s.len() {
        s.len()
    } else if s[from] == SP || s[from] == HTAB {
        skip_ows(s, from + 1)
    } else {
        from
    }
}

/// The end of the value once trailing spaces and tabs are dropped: the
/// smallest index `e <= upto` such that everything from `e` to `upto` is
/// whitespace.
pub open spec fn spec_trim_end(s: Seq<u8>, upto: int) -> int
    decreases upto when 0 <= upto <= s.len()
{
    if upto == 0 {
        0
    } else if s[upto - 1] == SP || s[upto - 1] == HTAB {
        spec_trim_end(s, upto - 1)
    } else {
        upto
    }
}

/// Drop trailing whitespace before `upto`.
pub fn trim_end(s: &[u8], upto: usize) -> (r: usize)
    requires
        upto <= s@.len(),
    ensures
        r == spec_trim_end(s@, upto as int),
        r <= upto,
    decreases upto,
{
    if upto == 0 {
        0
    } else if s[upto - 1] == SP || s[upto - 1] == HTAB {
        trim_end(s, upto - 1)
    } else {
        upto
    }
}

/// What a header line `name: value` denotes: the name is everything before
/// the first colon and may not be empty or contain spaces; the value is
/// everything after it with surrounding optional whitespace removed.
pub open spec fn spec_parse_header_line(s: Seq<u8>) -> Option<(Seq<u8>, Seq<u8>)> {
    let c = spec_find_byte(s, COLON, 0);
    if c >= s.len() || c == 0 {
        None
    } else {
        let name = s.subrange(0, c);
        if spec_find_byte(name, SP, 0) < name.len() {
            None
        } else {
            let a = spec_skip_ows(s, c + 1);
            let b = spec_trim_end(s, s.len() as int);
            if a <= b {
                Some((name, s.subrange(a, b)))
            } else {
                Some((name, Seq::empty()))
            }
        }
    }
}

/// Parse one header line (without its CRLF).
pub fn parse_header_line(s: &[u8]) -> (r: Result<(Vec<u8>, Vec<u8>), ProtoError>)
    ensures
        match r {
            Ok((n, v)) => spec_parse_header_line(s@) == Some((n@, v@)),
            Err(e) => spec_parse_header_line(s@) is None && e == ProtoError::InvalidHeader,
        },
{
    let c = find_byte(s, COLON, 0);
    if c >= s.len() || c == 0 {
        return Err(ProtoError::InvalidHeader);
    }
    let name = copy_range(s, 0, c);
    if find_byte(name.as_slice(), SP, 0) < name.len() {
        return Err(ProtoError::InvalidHeader);
    }
    let a = skip_ows(s, c + 1);
    let b = trim_end(s, s.len());
    if a <= b {
        let value = copy_range(s, a, b);
        Ok((name, value))
    } else {
        let value: Vec<u8> = Vec::new();
        proof {
            assert(value@ =~= Seq::<u8>::empty());
        }
        Ok((name, value))
    }
}


/// The most header lines a request head may carry.
pub const MAX_HEADERS: usize = 96;

/// The longest single head line accepted, in bytes.
pub const MAX_HEADER_LINE: usize = 8192;

/// Scan header lines from `from`, folding them onto `acc` lowered, until
/// the empty line. `None`: the head is not complete yet. The successful
/// result carries the header pairs and the index just past the final CRLF.
pub open spec fn spec_scan_headers(
    s: Seq<u8>,
    from: int,
    acc: Seq<(Seq<u8>, Seq<u8>)>,
    cnt: int,
    limit: int,
) -> Option<Result<(Seq<(Seq<u8>, Seq<u8>)>, int), ProtoError>>
    decreases s.len() - from when 0 <= from <= s.len()
{
    let e = spec_find_crlf(s, from);
    if e >= s.len() {
        if s.len() - from > MAX_HEADER_LINE {
            Some(Err(ProtoError::HeaderTooLarge))
        } else {
            None
        }
    } else if e < from || e + 2 > s.len() {
        None
    } else if e == from {
        Some(Ok((acc, from + 2)))
    } else if e - from > MAX_HEADER_LINE {
        Some(Err(ProtoError::HeaderTooLarge))
    } else if cnt >= limit {
        Some(Err(ProtoError::TooManyHeaders))
    } else {
        match spec_parse_header_line(s.subrange(from, e)) {
            None => Some(Err(ProtoError::InvalidHeader)),
            Some((n, v)) => spec_scan_headers(s, e + 2, acc.push((lower_seq(n), v)), cnt + 1, limit),
        }
    }
}

/// What decoding a request head from the buffer yields: `None` while the
/// head is incomplete, otherwise the parsed request line and headers with
/// the number of bytes consumed, or the protocol error.
pub open spec fn spec_decode_head(s: Seq<u8>, limit: int) -> Option<
    Result<((Method, Seq<u8>, Version), Seq<(Seq<u8>, Seq<u8>)>, int), ProtoError>,
> {
    let e = spec_find_crlf(s, 0);
    if e >= s.len() {
        if s.len() > MAX_HEADER_LINE {
            Some(Err(ProtoError::HeaderTooLarge))
        } else {
            None
        }
    } else {
        match spec_parse_request_line(s.subrange(0, e)) {
            None => Some(Err(ProtoError::InvalidRequestLine)),
            Some(rl) => match spec_scan_headers(s, e + 2, Seq::empty(), 0, limit) {
                None => None,
                Some(Err(er)) => Some(Err(er)),
                Some(Ok((hs, end))) => Some(Ok((rl, hs, end))),
            },
        }
    }
}

/// Decode a request head from the buffer. `Ok(None)` asks for more bytes;
/// `Ok(Some((head, used)))` hands back the parsed head and how many bytes
/// of the buffer it took. The header map is filled into `headers`, which
/// must come in drained.
#[verifier::loop_isolation(false)]
pub fn decode_head(buf: &[u8], limit: usize, headers: HeaderMap) -> (r: Result<
    Option<(RequestHead, usize)>,
    ProtoError,
>)
    requires
        headers@.len() == 0,
        headers.wf(),
    ensures
        match r {
            Ok(Some((head, used))) => {
                &&& spec_decode_head(buf@, limit as int) matches Some(Ok((rl, hs, end)))
                    && head.method == rl.0 && head.uri@ == rl.1 && head.version == rl.2
                    && head.headers@ == hs && end == used
                &&& head.headers.wf()
                &&& used <= buf@.len()
            },
            Ok(None) => spec_decode_head(buf@, limit as int) is None,
            Err(e) => spec_decode_head(buf@, limit as int) == Some(
                Err::<((Method, Seq<u8>, Version), Seq<(Seq<u8>, Seq<u8>)>, int), ProtoError>(e),
            ),
        },
{
    let e = find_crlf(buf, 0);
    if e >= buf.len() {
        if buf.len() > MAX_HEADER_LINE {
            return Err(ProtoError::HeaderTooLarge);
        }
        return Ok(None);
    }
    let line = copy_range(buf, 0, e);
    let (method, uri, version) = match parse_request_line(line.as_slice()) {
        Ok(rl) => rl,
        Err(er) => {
            return Err(er);
        },
    };
    let mut map = headers;
    let mut pos: usize = e + 2;
    let mut cnt: usize = 0;
    let ghost start = e + 2int;
    proof {
        assert(map@ =~= Seq::<(Seq<u8>, Seq<u8>)>::empty());
    }
    loop
        invariant
            start <= pos <= buf@.len(),
            cnt <= limit,
            map.wf(),
            spec_scan_headers(buf@, pos as int, map@, cnt as int, limit as int)
                == spec_scan_headers(buf@, start, Seq::empty(), 0, limit as int),
        decreases buf@.len() - pos,
    {
        let le = find_crlf(buf, pos);
        if le >= buf.len() {
            if buf.len() - pos > MAX_HEADER_LINE {
                return Err(ProtoError::HeaderTooLarge);
            }
            return Ok(None);
        }
        if le == pos {
            let used = pos + 2;
            let head = RequestHead { method, uri, version, headers: map };
            return Ok(Some((head, used)));
        }
        if le - pos > MAX_HEADER_LINE {
            return Err(ProtoError::HeaderTooLarge);
        }
        if cnt >= limit {
            return Err(ProtoError::TooManyHeaders);
        }
        let hline = copy_range(buf, pos, le);
        let (n, v) = match parse_header_line(hline.as_slice()) {
            Ok(nv) => nv,
            Err(er) => {
                return Err(er);
            },
        };
        map.append(n.as_slice(), v);
        pos = le + 2;
        cnt = cnt + 1;
    }
}

/// The body framing of a message.
#[derive(Copy, Clone, PartialEq, Eq, Structural, Debug)]
pub enum TransferCoding {
    /// No body belongs to the message.
    NoBody,
    /// Exactly this many body bytes follow.
    Length(usize),
    /// The body arrives in chunked transfer coding.
    Chunked,
    /// The body runs to the end of the connection.
    Eof,
}

/// The request-body framing the headers call for. A CONNECT request has no
/// body of its own; `Transfer-Encoding` together with `Content-Length`, or
/// differing `Content-Length` values, are rejected; `Transfer-Encoding`
/// must end in `chunked`; otherwise a parseable `Content-Length` gives the
/// body's length and no framing header at all means no body.
pub open spec fn spec_request_framing(method: Method, h: Seq<(Seq<u8>, Seq<u8>)>) -> Result<
    TransferCoding,
    ProtoError,
> {
    if method == Method::Connect {
        Ok(TransferCoding::NoBody)
    } else {
        let te = pair_seconds(h.filter(|p: (Seq<u8>, Seq<u8>)| has_name(p, spec_transfer_encoding())));
        let cl = pair_seconds(h.filter(|p: (Seq<u8>, Seq<u8>)| has_name(p, spec_content_length())));
        if te.len() > 0 && cl.len() > 0 {
            Err(ProtoError::ConflictingFraming)
        } else if te.len() > 0 {
            if lower_seq(te.last()) == spec_chunked_value() {
                Ok(TransferCoding::Chunked)
            } else {
                Err(ProtoError::InvalidHeader)
            }
        } else if cl.len() > 0 {
            if forall|i: int| 0 <= i < cl.len() ==> #[trigger] cl[i] == cl[0] {
                if is_dec_digits(cl[0]) && dec_value(cl[0]) <= usize::MAX {
                    Ok(TransferCoding::Length(dec_value(cl[0]) as usize))
                } else {
                    Err(ProtoError::InvalidHeader)
                }
            } else {
                Err(ProtoError::ConflictingFraming)
            }
        } else {
            Ok(TransferCoding::NoBody)
        }
    }
}

/// Decide the request-body framing from the parsed head.
#[verifier::loop_isolation(false)]
pub fn decide_request_framing(method: Method, headers: &HeaderMap) -> (r: Result<
    TransferCoding,
    ProtoError,
>)
    ensures
        r == spec_request_framing(method, headers@),
{
    proof {
        lemma_known_names_lowercase();
    }
    if matches!(method, Method::Connect) {
        return Ok(TransferCoding::NoBody);
    }
    let te = headers.get_all(transfer_encoding().as_slice());
    let cl = headers.get_all(content_length().as_slice());
    let ghost tev = pair_seconds(
        headers@.filter(|p: (Seq<u8>, Seq<u8>)| has_name(p, spec_transfer_encoding())),
    );
    let ghost clv = pair_seconds(
        headers@.filter(|p: (Seq<u8>, Seq<u8>)| has_name(p, spec_content_length())),
    );
    if te.len() > 0 && cl.len() > 0 {
        return Err(ProtoError::ConflictingFraming);
    }
    if te.len() > 0 {
        let last = &te[te.len() - 1];
        proof {
            assert(last@ == tev.last());
        }
        if eq_ignore_ascii_case(last.as_slice(), chunked_value().as_slice()) {
            proof {
                lemma_lower_fixed_is_identity();
            }
            return Ok(TransferCoding::Chunked);
        }
        proof {
            lemma_lower_fixed_is_identity();
        }
        return Err(ProtoError::InvalidHeader);
    }
    if cl.len() > 0 {
        let firstv = &cl[0];
        let mut i: usize = 1;
        while i < cl.len()
            invariant
                1 <= i <= cl@.len(),
                forall|j: int| 0 <= j < i ==> #[trigger] cl@[j]@ == cl@[0]@,
            decreases cl@.len() - i,
        {
            if !bytes_eq(cl[i].as_slice(), firstv.as_slice()) {
                proof {
                    assert(clv[i as int] != clv[0]);
                }
                return Err(ProtoError::ConflictingFraming);
            }
            i = i + 1;
        }
        proof {
            assert forall|j: int| 0 <= j < clv.len() implies #[trigger] clv[j] == clv[0] by {
                assert(clv[j] == cl@[j]@);
            }
        }
        match parse_dec_usize(firstv.as_slice()) {
            Some(n) => {
                return Ok(TransferCoding::Length(n));
            },
            None => {
                return Err(ProtoError::InvalidHeader);
            },
        }
    }
    Ok(TransferCoding::NoBody)
}

/// Lowering the chunked token twice changes nothing; stated here so the
/// case-insensitive comparison above lines up with the specification.
proof fn lemma_lower_fixed_is_identity()
    ensures
        lower_seq(spec_chunked_value()) == spec_chunked_value(),
        lower_seq(spec_close_value()) == spec_close_value(),
        lower_seq(spec_keep_alive_value()) == spec_keep_alive_value(),
        lower_seq(spec_upgrade_value()) == spec_upgrade_value(),
        lower_seq(spec_continue_value()) == spec_continue_value(),
{
    lemma_known_names_lowercase();
}

/// The connection type the request's version and `Connection` header call
/// for: HTTP/1.0 closes unless `keep-alive` is asked for; HTTP/1.1 keeps
/// alive unless `close` is asked for, and upgrades when an `Upgrade` header
/// stands beside `Connection: upgrade`.
pub open spec fn spec_ctype_policy(version: Version, h: Seq<(Seq<u8>, Seq<u8>)>) -> ConnectionType {
    let has_conn = view_contains(h, spec_connection());
    let cv = lower_seq(first_value(h, spec_connection()));
    if version == Version::Http10 {
        if has_conn && cv == spec_keep_alive_value() {
            ConnectionType::KeepAlive
        } else {
            ConnectionType::Close
        }
    } else {
        if has_conn && cv == spec_close_value() {
            ConnectionType::Close
        } else if has_conn && cv == spec_upgrade_value() && view_contains(h, spec_upgrade_header()) {
            ConnectionType::Upgrade
        } else {
            ConnectionType::KeepAlive
        }
    }
}

/// Decide the connection type from the parsed request head.
pub fn decide_ctype(version: Version, headers: &HeaderMap) -> (r: ConnectionType)
    ensures
        r == spec_ctype_policy(version, headers@),
{
    proof {
        lemma_known_names_lowercase();
    }
    let cv = headers.get_first(connection().as_slice());
    match version {
        Version::Http10 => match cv {
            Some(v) => {
                if eq_ignore_ascii_case(v.as_slice(), keep_alive_value().as_slice()) {
                    ConnectionType::KeepAlive
                } else {
                    ConnectionType::Close
                }
            },
            None => ConnectionType::Close,
        },
        _ => match cv {
            Some(v) => {
                if eq_ignore_ascii_case(v.as_slice(), close_value().as_slice()) {
                    ConnectionType::Close
                } else if eq_ignore_ascii_case(v.as_slice(), upgrade_value().as_slice())
                    && headers.contains_key(upgrade_header().as_slice()) {
                    ConnectionType::Upgrade
                } else {
                    ConnectionType::KeepAlive
                }
            },
            None => ConnectionType::KeepAlive,
        },
    }
}

/// Whether the request asks for a `100 Continue` interim response: its
/// `Expect` header equals `100-continue` up to ASCII case.
pub open spec fn spec_is_expect(h: Seq<(Seq<u8>, Seq<u8>)>) -> bool {
    view_contains(h, spec_expect_header()) && lower_seq(first_value(h, spec_expect_header()))
        == spec_continue_value()
}

/// Whether the request carries `Expect: 100-continue`.
pub fn is_expect_request(headers: &HeaderMap) -> (r: bool)
    ensures
        r == spec_is_expect(headers@),
{
    proof {
        lemma_known_names_lowercase();
    }
    match headers.get_first(expect_header().as_slice()) {
        Some(v) => eq_ignore_ascii_case(v.as_slice(), continue_value().as_slice()),
        None => false,
    }
}

/// One header in wire form: `name: value` followed by CRLF.
pub open spec fn spec_header_line_bytes(p: (Seq<u8>, Seq<u8>)) -> Seq<u8> {
    p.0 + seq![COLON, SP] + p.1 + seq![CR, LF]
}

/// All headers in wire form, in storage order.
pub open spec fn spec_encode_headers(h: Seq<(Seq<u8>, Seq<u8>)>) -> Seq<u8>
    decreases h.len(),
{
    if h.len() == 0 {
        Seq::empty()
    } else {
        spec_encode_headers(h.drop_last()) + spec_header_line_bytes(h.last())
    }
}

/// The status line of a response: `HTTP/1.1 status reason` and CRLF.
pub open spec fn spec_status_line(status: u16, reason: Seq<u8>) -> Seq<u8> {
    spec_http11_bytes() + seq![SP] + dec_digits(status as nat) + seq![SP] + reason + seq![CR, LF]
}

/// A whole response head on the wire: the status line, every header in
/// order with `Date` stamped at the end when missing, and the blank line.
pub open spec fn spec_encode_response_head(
    status: u16,
    reason: Seq<u8>,
    h: Seq<(Seq<u8>, Seq<u8>)>,
    date: Seq<u8>,
) -> Seq<u8> {
    spec_status_line(status, reason) + spec_encode_headers(crate::h2::with_date(h, date)) + seq![
        CR,
        LF,
    ]
}

/// Encode a response head. `date` is the pre-formatted date string of the
/// shared handle; it is written only when the headers carry no `Date`.
#[verifier::loop_isolation(false)]
pub fn encode_response_head(status: u16, reason: &[u8], headers: &HeaderMap, date: &[u8]) -> (r:
    Vec<u8>)
    ensures
        r@ == spec_encode_response_head(status, reason@, headers@, date@),
{
    proof {
        lemma_known_names_lowercase();
    }
    let mut out: Vec<u8> = Vec::new();
    let v11 = http11_bytes();
    extend_from_slice(&mut out, v11.as_slice());
    out.push(SP);
    let code = u64_to_dec(status as u64);
    extend_from_slice(&mut out, code.as_slice());
    out.push(SP);
    extend_from_slice(&mut out, reason);
    out.push(CR);
    out.push(LF);
    proof {
        assert(out@ =~= spec_status_line(status, reason@));
    }
    let ghost sl = spec_status_line(status, reason@);
    let n = headers.len();
    let mut i: usize = 0;
    while i < n
        invariant
            n == headers@.len(),
            i <= n,
            out@ == sl + spec_encode_headers(headers@.take(i as int)),
        decreases n - i,
    {
        let (name, value) = headers.get_index(i);
        let ghost pre = out@;
        extend_from_slice(&mut out, name.as_slice());
        out.push(COLON);
        out.push(SP);
        extend_from_slice(&mut out, value.as_slice());
        out.push(CR);
        out.push(LF);
        proof {
            assert(headers@.take(i as int + 1).drop_last() =~= headers@.take(i as int));
            assert(out@ =~= pre + spec_header_line_bytes(headers@[i as int]));
            assert(out@ =~= sl + spec_encode_headers(headers@.take(i as int + 1)));
        }
        i = i + 1;
    }
    proof {
        assert(headers@.take(n as int) =~= headers@);
    }
    if !headers.contains_key(date_header().as_slice()) {
        let ghost pre = out@;
        let ghost stamped = crate::h2::with_date(headers@, date@);
        let dn = date_header();
        extend_from_slice(&mut out, dn.as_slice());
        out.push(COLON);
        out.push(SP);
        extend_from_slice(&mut out, date);
        out.push(CR);
        out.push(LF);
        proof {
            assert(stamped.drop_last() =~= headers@);
            assert(out@ =~= pre + spec_header_line_bytes(stamped.last()));
            assert(out@ =~= sl + spec_encode_headers(stamped));
        }
    }
    out.push(CR);
    out.push(LF);
    proof {
        assert(out@ =~= spec_encode_response_head(status, reason@, headers@, date@));
    }
    out
}

/// A response status that forbids a body: interim responses, `204 No
/// Content` and `304 Not Modified`.
pub open spec fn spec_bodyless_status(status: u16) -> bool {
    (100 <= status < 200) || status == 204 || status == 304
}

/// The response-body framing for the given status and declared size: a
/// status that forbids a body carries none, a known size is sent as is,
/// and a stream is chunked on HTTP/1.1 and runs to the end of the
/// connection on HTTP/1.0.
pub fn decide_response_framing(version: Version, status: u16, size: BodySize) -> (r:
    TransferCoding)
    ensures
        r == if spec_bodyless_status(status) {
            TransferCoding::NoBody
        } else {
            match size {
                BodySize::Empty => TransferCoding::NoBody,
                BodySize::Fixed(n) => TransferCoding::Length(n),
                BodySize::Stream => if version == Version::Http11 {
                    TransferCoding::Chunked
                } else {
                    TransferCoding::Eof
                },
            }
        },
{
    if (100 <= status && status < 200) || status == 204 || status == 304 {
        return TransferCoding::NoBody;
    }
    match size {
        BodySize::Empty => TransferCoding::NoBody,
        BodySize::Fixed(n) => TransferCoding::Length(n),
        BodySize::Stream => match version {
            Version::Http11 => TransferCoding::Chunked,
            _ => TransferCoding::Eof,
        },
    }
}

/// The hexadecimal digit string of `n`, lower case, most significant
/// digit first.
pub open spec fn hex_digits(n: nat) -> Seq<u8>
    decreases n,
{
    if n < 16 {
        seq![hex_digit(n)]
    } else {
        hex_digits(n / 16).push(hex_digit(n % 16))
    }
}

/// One hexadecimal digit, lower case.
pub open spec fn hex_digit(d: nat) -> u8 {
    if d < 10 {
        (48 + d) as u8
    } else {
        (87 + d) as u8
    }
}

/// Format `n` in lower-case hexadecimal.
pub fn u64_to_hex(n: u64) -> (r: Vec<u8>)
    ensures
        r@ == hex_digits(n as nat),
    decreases n,
{
    if n < 16 {
        let d = n as u8;
        let b: u8 = if d < 10 {
            48 + d
        } else {
            87 + d
        };
        let mut v: Vec<u8> = Vec::new();
        v.push(b);
        proof {
            assert(v@ =~= hex_digits(n as nat));
        }
        v
    } else {
        let mut v = u64_to_hex(n / 16);
        let d = (n % 16) as u8;
        let b: u8 = if d < 10 {
            48 + d
        } else {
            87 + d
        };
        v.push(b);
        proof {
            assert(v@ =~= hex_digits(n as nat));
        }
        v
    }
}

/// One chunk of a chunked body on the wire: the length in hexadecimal,
/// CRLF, the data, CRLF.
pub open spec fn spec_encode_chunk(data: Seq<u8>) -> Seq<u8> {
    hex_digits(data.len()) + seq![CR, LF] + data + seq![CR, LF]
}

/// Encode one chunk of a chunked body.
pub fn encode_chunk(data: &[u8]) -> (r: Vec<u8>)
    ensures
        r@ == spec_encode_chunk(data@),
{
    let mut out = u64_to_hex(data.len() as u64);
    out.push(CR);
    out.push(LF);
    extend_from_slice(&mut out, data);
    out.push(CR);
    out.push(LF);
    proof {
        assert(out@ =~= spec_encode_chunk(data@));
    }
    out
}

/// The final frame of a chunked body: a zero-length chunk and the empty
/// trailer section.
pub fn encode_chunks_end() -> (r: Vec<u8>)
    ensures
        r@ == seq![48u8, CR, LF, CR, LF],
{
    let v: Vec<u8> = vec![48u8, CR, LF, CR, LF];
    proof {
        assert(v@ =~= seq![48u8, CR, LF, CR, LF]);
    }
    v
}

/// A hexadecimal digit's value, or 16 for any other byte.
pub open spec fn hex_digit_value(b: u8) -> nat {
    if 48 <= b <= 57 {
        (b - 48) as nat
    } else if 97 <= b <= 102 {
        (b - 87) as nat
    } else if 65 <= b <= 70 {
        (b - 55) as nat
    } else {
        16
    }
}

/// A non-empty sequence of hexadecimal digits.
pub open spec fn is_hex_digits(s: Seq<u8>) -> bool {
    s.len() > 0 && forall|i: int| 0 <= i < s.len() ==> hex_digit_value(#[trigger] s[i]) < 16
}

/// The number a hexadecimal digit string denotes.
pub open spec fn hex_value(s: Seq<u8>) -> nat
    decreases s.len(),
{
    if s.len() == 0 {
        0
    } else {
        hex_value(s.drop_last()) * 16 + hex_digit_value(s.last())
    }
}

/// A digit extends the value of its prefix.
proof fn lemma_hex_value_step(s: Seq<u8>, i: int)
    requires
        0 <= i < s.len(),
    ensures
        hex_value(s.take(i + 1)) == hex_value(s.take(i)) * 16 + hex_digit_value(s[i]),
{
    assert(s.take(i + 1).drop_last() =~= s.take(i));
    assert(s.take(i + 1).last() == s[i]);
}

/// For a valid hexadecimal string, a prefix never denotes more than the
/// whole.
proof fn lemma_hex_value_prefix(s: Seq<u8>, i: int)
    requires
        0 <= i <= s.len(),
        forall|j: int| 0 <= j < s.len() ==> hex_digit_value(#[trigger] s[j]) < 16,
    ensures
        hex_value(s.take(i)) <= hex_value(s),
    decreases s.len() - i,
{
    if i == s.len() {
        assert(s.take(i) =~= s);
    } else {
        lemma_hex_value_step(s, i);
        lemma_hex_value_prefix(s, i + 1);
    }
}

/// Parse a hexadecimal digit string. `None` when the slice is empty, holds
/// a non-digit, or denotes a value beyond `usize::MAX`.
#[verifier::loop_isolation(false)]
pub fn parse_hex_usize(s: &[u8]) -> (r: Option<usize>)
    ensures
        match r {
            Some(n) => is_hex_digits(s@) && n == hex_value(s@),
            None => !is_hex_digits(s@) || hex_value(s@) > usize::MAX,
        },
{
    if s.len() == 0 {
        return None;
    }
    let mut acc: usize = 0;
    let mut i: usize = 0;
    while i < s.len()
        invariant
            i <= s@.len(),
            forall|j: int| 0 <= j < i ==> hex_digit_value(#[trigger] s@[j]) < 16,
            acc == hex_value(s@.take(i as int)),
        decreases s@.len() - i,
    {
        let b = s[i];
        let d: usize = if 48 <= b && b <= 57 {
            (b - 48) as usize
        } else if 97 <= b && b <= 102 {
            (b - 87) as usize
        } else if 65 <= b && b <= 70 {
            (b - 55) as usize
        } else {
            return None;
        };
        let acc16 = match acc.checked_mul(16) {
            Some(v) => v,
            None => {
                proof {
                    lemma_hex_value_step(s@, i as int);
                    if is_hex_digits(s@) {
                        lemma_hex_value_prefix(s@, i as int + 1);
                    }
                }
                return None;
            },
        };
        let next = match acc16.checked_add(d) {
            Some(v) => v,
            None => {
                proof {
                    lemma_hex_value_step(s@, i as int);
                    if is_hex_digits(s@) {
                        lemma_hex_value_prefix(s@, i as int + 1);
                    }
                }
                return None;
            },
        };
        proof {
            lemma_hex_value_step(s@, i as int);
        }
        acc = next;
        i = i + 1;
    }
    proof {
        assert(s@.take(s@.len() as int) =~= s@);
    }
    Some(acc)
}

/// What decoding a chunked body from `from` yields, the decoded bytes so
/// far in `acc`: `None` while the body is incomplete, otherwise the body
/// bytes with the index just past the final empty chunk, or the decode
/// error.
pub open spec fn spec_decode_chunked(s: Seq<u8>, from: int, acc: Seq<u8>) -> Option<
    Result<(Seq<u8>, int), ProtoError>,
>
    decreases s.len() - from when 0 <= from <= s.len()
{
    let e = spec_find_crlf(s, from);
    if e >= s.len() {
        if s.len() - from > MAX_HEADER_LINE {
            Some(Err(ProtoError::ChunkedDecode))
        } else {
            None
        }
    } else if e < from || e + 2 > s.len() {
        None
    } else {
        let line = s.subrange(from, e);
        if !is_hex_digits(line) || hex_value(line) > usize::MAX {
            Some(Err(ProtoError::ChunkedDecode))
        } else {
            let n = hex_value(line) as int;
            if n == 0 {
                if e + 4 <= s.len() {
                    if s[e + 2] == CR && s[e + 3] == LF {
                        Some(Ok((acc, e + 4)))
                    } else {
                        Some(Err(ProtoError::ChunkedDecode))
                    }
                } else {
                    None
                }
            } else {
                if e + 2 + n + 2 <= s.len() {
                    if s[e + 2 + n] == CR && s[e + 2 + n + 1] == LF {
                        spec_decode_chunked(s, e + 2 + n + 2, acc + s.subrange(e + 2, e + 2 + n))
                    } else {
                        Some(Err(ProtoError::ChunkedDecode))
                    }
                } else {
                    None
                }
            }
        }
    }
}

/// Decode a chunked request body from the buffer. `Ok(None)` asks for more
/// bytes; `Ok(Some((body, used)))` hands back the reassembled body and how
/// many bytes of the buffer the chunked framing took.
#[verifier::loop_isolation(false)]
pub fn decode_chunked(buf: &[u8]) -> (r: Result<Option<(Vec<u8>, usize)>, ProtoError>)
    ensures
        match r {
            Ok(Some((body, used))) => spec_decode_chunked(buf@, 0, Seq::empty()) == Some(
                Ok::<(Seq<u8>, int), ProtoError>((body@, used as int)),
            ) && used <= buf@.len(),
            Ok(None) => spec_decode_chunked(buf@, 0, Seq::empty()) is None,
            Err(e) => spec_decode_chunked(buf@, 0, Seq::empty()) == Some(
                Err::<(Seq<u8>, int), ProtoError>(e),
            ),
        },
{
    let mut acc: Vec<u8> = Vec::new();
    let mut pos: usize = 0;
    proof {
        assert(acc@ =~= Seq::<u8>::empty());
    }
    loop
        invariant
            pos <= buf@.len(),
            acc@.len() <= pos,
            spec_decode_chunked(buf@, pos as int, acc@) == spec_decode_chunked(
                buf@,
                0,
                Seq::empty(),
            ),
        decreases buf@.len() - pos,
    {
        let e = find_crlf(buf, pos);
        if e >= buf.len() {
            if buf.len() - pos > MAX_HEADER_LINE {
                return Err(ProtoError::ChunkedDecode);
            }
            return Ok(None);
        }
        let line = copy_range(buf, pos, e);
        let n = match parse_hex_usize(line.as_slice()) {
            Some(n) => n,
            None => {
                return Err(ProtoError::ChunkedDecode);
            },
        };
        if n == 0 {
            if buf.len() - e < 4 {
                return Ok(None);
            }
            if buf[e + 2] == CR && buf[e + 3] == LF {
                return Ok(Some((acc, e + 4)));
            }
            return Err(ProtoError::ChunkedDecode);
        }
        if buf.len() - e < 4 || buf.len() - e - 4 < n {
            return Ok(None);
        }
        if buf[e + 2 + n] == CR && buf[e + 2 + n + 1] == LF {
            let data = copy_range(buf, e + 2, e + 2 + n);
            crate::buf::extend_from_slice(&mut acc, data.as_slice());
            pos = e + 2 + n + 2;
        } else {
            return Err(ProtoError::ChunkedDecode);
        }
    }
}
} // verus!
