//! The client side of the runtime: the payload-limited body collector, the
//! response handle with its destroy-on-drop signal, and the decisions the
//! request sender takes around the protocol calls.

use crate::buf::extend_from_slice;
use crate::digits::{dec_value, is_dec_digits, parse_dec_usize};
use crate::error::{BodyError, TimeoutError};
use crate::header::{
    content_length, first_value, lemma_known_names_lowercase, spec_content_length, view_contains,
    HeaderMap,
};
use crate::types::ResponseHead;
use vstd::prelude::*;

verus! {

/// The default ceiling on a collected response body, in bytes.
pub const DEFAULT_PAYLOAD_LIMIT: usize = 1024 * 1024 * 8;

/// An error while collecting a response body.
#[derive(Copy, Clone, PartialEq, Eq, Structural, Debug)]
pub enum CollectError {
    /// The body itself failed: it overflowed the limit, a chunk was not
    /// valid UTF-8, or the stream reported an error.
    Body(BodyError),
    /// The body did not arrive within the response timeout.
    Timeout(TimeoutError),
}

/// An error of one send attempt: the protocol call failed, or the timer
/// fired first.
#[derive(PartialEq, Eq, Structural, Debug)]
pub enum SendError<E> {
    Inner(E),
    Timeout(TimeoutError),
}

/// The collection limit: the response's `Content-Length` when present and
/// parseable, but never more than the configured ceiling.
pub open spec fn spec_collect_limit(h: Seq<(Seq<u8>, Seq<u8>)>, ceiling: usize) -> usize {
    if view_contains(h, spec_content_length()) {
        let v = first_value(h, spec_content_length());
        if is_dec_digits(v) && dec_value(v) <= usize::MAX {
            if dec_value(v) < ceiling {
                dec_value(v) as usize
            } else {
                ceiling
            }
        } else {
            ceiling
        }
    } else {
        ceiling
    }
}

/// Compute the collection limit from the response headers.
pub fn collect_limit(headers: &HeaderMap, ceiling: usize) -> (r: usize)
    ensures
        r == spec_collect_limit(headers@, ceiling),
        r <= ceiling,
{
    proof {
        lemma_known_names_lowercase();
    }
    let cl = content_length();
    match headers.get_first(cl.as_slice()) {
        Some(v) => match parse_dec_usize(v.as_slice()) {
            Some(n) => if n < ceiling {
                n
            } else {
                ceiling
            },
            None => ceiling,
        },
        None => ceiling,
    }
}

/// One event of a body stream: a chunk arrived, the stream failed, or the
/// response timer fired first.
pub enum BodyEvent {
    Chunk(Vec<u8>),
    Failed(BodyError),
    TimedOut,
}

/// What collecting a body from the given events yields, starting from the
/// bytes already gathered: the collected bytes or the first error, plus
/// whether the connection must be destroyed rather than reused.
pub open spec fn spec_collect(evs: Seq<BodyEvent>, acc: Seq<u8>, limit: usize) -> (Result<
    Seq<u8>,
    CollectError,
>, bool)
    decreases evs.len(),
{
    if evs.len() == 0 {
        (Ok(acc), false)
    } else {
        match evs[0] {
            BodyEvent::Chunk(c) => if acc.len() + c@.len() > limit {
                (Err(CollectError::Body(BodyError::OverFlow)), true)
            } else {
                spec_collect(evs.drop_first(), acc + c@, limit)
            },
            BodyEvent::Failed(e) => (Err(CollectError::Body(e)), true),
            BodyEvent::TimedOut => (Err(CollectError::Timeout(TimeoutError::Response)), true),
        }
    }
}

/// A successfully collected body never holds more than the limit.
pub proof fn lemma_collect_bounded(evs: Seq<BodyEvent>, acc: Seq<u8>, limit: usize)
    requires
        acc.len() <= limit,
    ensures
        spec_collect(evs, acc, limit).0 matches Ok(b) ==> b.len() <= limit,
    decreases evs.len(),
{
    if evs.len() > 0 {
        match evs[0] {
            BodyEvent::Chunk(c) => {
                if acc.len() + c@.len() <= limit {
                    lemma_collect_bounded(evs.drop_first(), acc + c@, limit);
                }
            },
            _ => {},
        }
    }
}

/// Collection destroys the connection exactly when it fails.
pub proof fn lemma_collect_destroys_on_error(evs: Seq<BodyEvent>, acc: Seq<u8>, limit: usize)
    ensures
        spec_collect(evs, acc, limit).1 == (spec_collect(evs, acc, limit).0 is Err),
    decreases evs.len(),
{
    if evs.len() > 0 {
        match evs[0] {
            BodyEvent::Chunk(c) => {
                if acc.len() + c@.len() <= limit {
                    lemma_collect_destroys_on_error(evs.drop_first(), acc + c@, limit);
                }
            },
            _ => {},
        }
    }
}

/// Collect a body from the events of its stream, enforcing the limit. The
/// second component reports whether the connection must be destroyed.
#[verifier::loop_isolation(false)]
pub fn collect_body(events: &Vec<BodyEvent>, limit: usize) -> (r: (
    Result<Vec<u8>, CollectError>,
    bool,
))
    ensures
        match r.0 {
            Ok(b) => spec_collect(events@, Seq::<u8>::empty(), limit).0 == Result::<
                Seq<u8>,
                CollectError,
            >::Ok(b@) && b@.len() <= limit,
            Err(e) => spec_collect(events@, Seq::<u8>::empty(), limit).0 == Result::<
                Seq<u8>,
                CollectError,
            >::Err(e),
        },
        r.1 == spec_collect(events@, Seq::<u8>::empty(), limit).1,
{
    let ghost whole = spec_collect(events@, Seq::<u8>::empty(), limit);
    let mut acc: Vec<u8> = Vec::new();
    let mut i: usize = 0;
    proof {
        assert(events@.skip(0) =~= events@);
    }
    while i < events.len()
        invariant
            i <= events@.len(),
            acc@.len() <= limit,
            whole == spec_collect(events@.skip(i as int), acc@, limit),
        decreases events@.len() - i,
    {
        proof {
            assert(events@.skip(i as int)[0] == events@[i as int]);
            assert(events@.skip(i as int).drop_first() =~= events@.skip(i as int + 1));
        }
        match &events[i] {
            BodyEvent::Chunk(c) => {
                let fits = match acc.len().checked_add(c.len()) {
                    Some(total) => total <= limit,
                    None => false,
                };
                if !fits {
                    proof {
                        assert(acc@.len() + c@.len() > limit);
                    }
                    return (Err(CollectError::Body(BodyError::OverFlow)), true);
                }
                extend_from_slice(&mut acc, c.as_slice());
            },
            BodyEvent::Failed(e) => {
                return (Err(CollectError::Body(*e)), true);
            },
            BodyEvent::TimedOut => {
                return (Err(CollectError::Timeout(TimeoutError::Response)), true);
            },
        }
        i = i + 1;
    }
    proof {
        assert(events@.skip(events@.len() as int) =~= Seq::<BodyEvent>::empty());
    }
    (Ok(acc), false)
}


/// Relies on `core::str::from_utf8`: it succeeds exactly on valid UTF-8
/// and decodes it.
#[verifier::external_body]
fn utf8_from(v: &[u8]) -> (r: Option<&str>)
    ensures
        r is Some <==> vstd::utf8::valid_utf8(v@),
        r matches Some(s) ==> s@ == vstd::utf8::decode_utf8(v@),
{
    core::str::from_utf8(v).ok()
}

/// Concatenation encodes piecewise.
proof fn lemma_encode_utf8_concat(a: Seq<char>, b: Seq<char>)
    ensures
        vstd::utf8::encode_utf8(a + b) == vstd::utf8::encode_utf8(a) + vstd::utf8::encode_utf8(b),
    decreases a.len(),
{
    if a.len() == 0 {
        assert(a + b =~= b);
        assert(vstd::utf8::encode_utf8(a) =~= Seq::<u8>::empty());
        assert(vstd::utf8::encode_utf8(a) + vstd::utf8::encode_utf8(b) =~= vstd::utf8::encode_utf8(
            b,
        ));
    } else {
        assert((a + b).drop_first() =~= a.drop_first() + b);
        assert((a + b)[0] == a[0]);
        lemma_encode_utf8_concat(a.drop_first(), b);
        assert(vstd::utf8::encode_utf8(a + b) =~= vstd::utf8::encode_utf8(a)
            + vstd::utf8::encode_utf8(b));
    }
}

/// What collecting a body as text yields: as `spec_collect`, except that a
/// chunk that is not valid UTF-8 on its own fails the collection.
pub open spec fn spec_collect_string(evs: Seq<BodyEvent>, acc: Seq<u8>, limit: usize) -> (Result<
    Seq<u8>,
    CollectError,
>, bool)
    decreases evs.len(),
{
    if evs.len() == 0 {
        (Ok(acc), false)
    } else {
        match evs[0] {
            BodyEvent::Chunk(c) => if acc.len() + c@.len() > limit {
                (Err(CollectError::Body(BodyError::OverFlow)), true)
            } else if !vstd::utf8::valid_utf8(c@) {
                (Err(CollectError::Body(BodyError::InvalidUtf8)), true)
            } else {
                spec_collect_string(evs.drop_first(), acc + c@, limit)
            },
            BodyEvent::Failed(e) => (Err(CollectError::Body(e)), true),
            BodyEvent::TimedOut => (Err(CollectError::Timeout(TimeoutError::Response)), true),
        }
    }
}

/// A successfully collected text body never holds more than the limit.
pub proof fn lemma_collect_string_bounded(evs: Seq<BodyEvent>, acc: Seq<u8>, limit: usize)
    requires
        acc.len() <= limit,
    ensures
        spec_collect_string(evs, acc, limit).0 matches Ok(b) ==> b.len() <= limit,
    decreases evs.len(),
{
    if evs.len() > 0 {
        match evs[0] {
            BodyEvent::Chunk(c) => {
                if acc.len() + c@.len() <= limit && vstd::utf8::valid_utf8(c@) {
                    lemma_collect_string_bounded(evs.drop_first(), acc + c@, limit);
                }
            },
            _ => {},
        }
    }
}

/// Collect a body as text from the events of its stream, enforcing the
/// limit and checking every chunk for valid UTF-8. The second component
/// reports whether the connection must be destroyed.
#[verifier::loop_isolation(false)]
pub fn collect_string(events: &Vec<BodyEvent>, limit: usize) -> (r: (
    Result<String, CollectError>,
    bool,
))
    ensures
        match r.0 {
            Ok(s) => spec_collect_string(events@, Seq::<u8>::empty(), limit).0 == Result::<
                Seq<u8>,
                CollectError,
            >::Ok(vstd::utf8::encode_utf8(s@)) && vstd::utf8::encode_utf8(s@).len() <= limit,
            Err(e) => spec_collect_string(events@, Seq::<u8>::empty(), limit).0 == Result::<
                Seq<u8>,
                CollectError,
            >::Err(e),
        },
        r.1 == spec_collect_string(events@, Seq::<u8>::empty(), limit).1,
{
    let ghost whole = spec_collect_string(events@, Seq::<u8>::empty(), limit);
    let mut acc = String::new();
    let mut acc_len: usize = 0;
    let mut i: usize = 0;
    proof {
        assert(events@.skip(0) =~= events@);
        assert(vstd::utf8::encode_utf8(acc@) =~= Seq::<u8>::empty());
    }
    while i < events.len()
        invariant
            i <= events@.len(),
            acc_len == vstd::utf8::encode_utf8(acc@).len(),
            acc_len <= limit,
            whole == spec_collect_string(events@.skip(i as int), vstd::utf8::encode_utf8(acc@), limit),
        decreases events@.len() - i,
    {
        proof {
            assert(events@.skip(i as int)[0] == events@[i as int]);
            assert(events@.skip(i as int).drop_first() =~= events@.skip(i as int + 1));
        }
        match &events[i] {
            BodyEvent::Chunk(c) => {
                let fits = match acc_len.checked_add(c.len()) {
                    Some(total) => total <= limit,
                    None => false,
                };
                if !fits {
                    return (Err(CollectError::Body(BodyError::OverFlow)), true);
                }
                match utf8_from(c.as_slice()) {
                    Some(s) => {
                        let ghost pre = acc@;
                        acc.append(s);
                        acc_len = acc_len + c.len();
                        proof {
                            vstd::utf8::decode_utf8_encode_utf8(c@);
                            lemma_encode_utf8_concat(pre, s@);
                        }
                    },
                    None => {
                        return (Err(CollectError::Body(BodyError::InvalidUtf8)), true);
                    },
                }
            },
            BodyEvent::Failed(e) => {
                return (Err(CollectError::Body(*e)), true);
            },
            BodyEvent::TimedOut => {
                return (Err(CollectError::Timeout(TimeoutError::Response)), true);
            },
        }
        i = i + 1;
    }
    proof {
        assert(events@.skip(events@.len() as int) =~= Seq::<BodyEvent>::empty());
    }
    (Ok(acc), false)
}

/// A response in the client's hands: its head, the collection settings,
/// and the destroy-on-drop signal that keeps a broken connection out of
/// the pool.
pub struct ClientResponse {
    head: ResponseHead,
    limit: usize,
    timeout_ms: u64,
    destroy_on_drop: bool,
}

impl ClientResponse {
    /// The response head.
    pub closed spec fn spec_head(&self) -> ResponseHead {
        self.head
    }

    /// The configured payload ceiling.
    pub closed spec fn spec_limit(&self) -> usize {
        self.limit
    }

    /// The configured body-collection timeout, in milliseconds.
    pub closed spec fn spec_timeout_ms(&self) -> u64 {
        self.timeout_ms
    }

    /// Whether the connection is to be destroyed on drop.
    pub closed spec fn spec_destroy(&self) -> bool {
        self.destroy_on_drop
    }

    /// Wrap a received head with the default limit and the given timeout.
    pub fn new(head: ResponseHead, timeout_ms: u64) -> (r: Self)
        ensures
            r.spec_head() == head,
            r.spec_limit() == DEFAULT_PAYLOAD_LIMIT,
            r.spec_timeout_ms() == timeout_ms,
            !r.spec_destroy(),
    {
        ClientResponse { head, limit: DEFAULT_PAYLOAD_LIMIT, timeout_ms, destroy_on_drop: false }
    }

    /// A reference to the inner head.
    pub fn inner(&self) -> (r: &ResponseHead)
        ensures
            *r == self.spec_head(),
    {
        &self.head
    }

    /// Change the payload ceiling; everything else stays.
    pub fn limit(self, limit: usize) -> (r: Self)
        ensures
            r.spec_head() == self.spec_head(),
            r.spec_limit() == limit,
            r.spec_timeout_ms() == self.spec_timeout_ms(),
            r.spec_destroy() == self.spec_destroy(),
    {
        ClientResponse { limit, ..self }
    }

    /// Change the body-collection timeout; everything else stays.
    pub fn timeout(self, timeout_ms: u64) -> (r: Self)
        ensures
            r.spec_head() == self.spec_head(),
            r.spec_limit() == self.spec_limit(),
            r.spec_timeout_ms() == timeout_ms,
            r.spec_destroy() == self.spec_destroy(),
    {
        ClientResponse { timeout_ms, ..self }
    }

    /// Collect the body from its stream events. The limit applied is the
    /// response's `Content-Length` capped by the configured ceiling; any
    /// failure marks the connection destroy-on-drop.
    pub fn collect(&mut self, events: &Vec<BodyEvent>) -> (r: Result<Vec<u8>, CollectError>)
        requires
            !old(self).spec_destroy(),
        ensures
            final(self).spec_head() == old(self).spec_head(),
            final(self).spec_limit() == old(self).spec_limit(),
            final(self).spec_timeout_ms() == old(self).spec_timeout_ms(),
            ({
                let limit = spec_collect_limit(old(self).spec_head().headers@, old(self).spec_limit());
                let out = spec_collect(events@, Seq::<u8>::empty(), limit);
                (match r {
                    Ok(b) => out.0 == Result::<Seq<u8>, CollectError>::Ok(b@) && b@.len() <= limit,
                    Err(e) => out.0 == Result::<Seq<u8>, CollectError>::Err(e),
                }) && final(self).spec_destroy() == out.1
            }),
    {
        let limit = collect_limit(&self.head.headers, self.limit);
        let (res, destroy) = collect_body(events, limit);
        if destroy {
            self.destroy_on_drop = true;
        }
        res
    }

    /// Collect the body as raw bytes; the limit and destroy rules are
    /// those of `collect`.
    pub fn body(&mut self, events: &Vec<BodyEvent>) -> (r: Result<Vec<u8>, CollectError>)
        requires
            !old(self).spec_destroy(),
        ensures
            final(self).spec_head() == old(self).spec_head(),
            final(self).spec_limit() == old(self).spec_limit(),
            final(self).spec_timeout_ms() == old(self).spec_timeout_ms(),
            ({
                let limit = spec_collect_limit(old(self).spec_head().headers@, old(self).spec_limit());
                let out = spec_collect(events@, Seq::<u8>::empty(), limit);
                (match r {
                    Ok(b) => out.0 == Result::<Seq<u8>, CollectError>::Ok(b@) && b@.len() <= limit,
                    Err(e) => out.0 == Result::<Seq<u8>, CollectError>::Err(e),
                }) && final(self).spec_destroy() == out.1
            }),
    {
        self.collect(events)
    }

    /// Collect the body as text: every chunk must be valid UTF-8 on its
    /// own, and the byte limit is that of `collect`.
    pub fn string(&mut self, events: &Vec<BodyEvent>) -> (r: Result<String, CollectError>)
        requires
            !old(self).spec_destroy(),
        ensures
            final(self).spec_head() == old(self).spec_head(),
            final(self).spec_limit() == old(self).spec_limit(),
            final(self).spec_timeout_ms() == old(self).spec_timeout_ms(),
            ({
                let limit = spec_collect_limit(old(self).spec_head().headers@, old(self).spec_limit());
                let out = spec_collect_string(events@, Seq::<u8>::empty(), limit);
                (match r {
                    Ok(s) => out.0 == Result::<Seq<u8>, CollectError>::Ok(
                        vstd::utf8::encode_utf8(s@),
                    ) && vstd::utf8::encode_utf8(s@).len() <= limit,
                    Err(e) => out.0 == Result::<Seq<u8>, CollectError>::Err(e),
                }) && final(self).spec_destroy() == out.1
            }),
    {
        let limit = collect_limit(&self.head.headers, self.limit);
        let (res, destroy) = collect_string(events, limit);
        if destroy {
            self.destroy_on_drop = true;
        }
        res
    }

    /// Mark the connection unreusable.
    pub fn mark_destroy_on_drop(&mut self)
        ensures
            final(self).spec_destroy(),
            final(self).spec_head() == old(self).spec_head(),
            final(self).spec_limit() == old(self).spec_limit(),
            final(self).spec_timeout_ms() == old(self).spec_timeout_ms(),
    {
        self.destroy_on_drop = true;
    }

    /// Whether the underlying connection is marked to be closed rather
    /// than returned to the pool.
    pub fn is_close_connection(&mut self) -> (r: bool)
        ensures
            r == old(self).spec_destroy(),
            *final(self) == *old(self),
    {
        self.destroy_on_drop
    }
}

/// Whether a received response closes the connection, mirroring the
/// server's rules: an HTTP/1.0 response closes unless it asks for
/// `keep-alive`, an HTTP/1.1 response closes exactly when it asks for
/// `close`.
pub fn response_is_close(version: crate::types::Version, headers: &HeaderMap) -> (r: bool)
    ensures
        r == (crate::codec::spec_ctype_policy(version, headers@)
            == crate::context::ConnectionType::Close),
{
    let ct = crate::codec::decide_ctype(version, headers);
    matches!(ct, crate::context::ConnectionType::Close)
}

/// The kinds of pooled connection the sender dispatches on.
#[derive(Copy, Clone, PartialEq, Eq, Structural, Debug)]
pub enum ConnKind {
    Tcp,
    Tls,
    Unix,
    H2,
    H3,
}

/// Whether a connection kind is driven by the HTTP/1 send path.
pub fn uses_h1(kind: ConnKind) -> (r: bool)
    ensures
        r == (kind == ConnKind::Tcp || kind == ConnKind::Tls || kind == ConnKind::Unix),
{
    matches!(kind, ConnKind::Tcp | ConnKind::Tls | ConnKind::Unix)
}

/// The timeout armed before a connection is at hand: the resolve timeout
/// when the pool was empty and a connection must be built, the request
/// timeout otherwise.
pub fn initial_timeout(pooled: bool, resolve_timeout_ms: u64, request_timeout_ms: u64) -> (r: u64)
    ensures
        r == if pooled {
            request_timeout_ms
        } else {
            resolve_timeout_ms
        },
{
    if pooled {
        request_timeout_ms
    } else {
        resolve_timeout_ms
    }
}

/// Conclude an HTTP/1 send: `None` stands for the request timer firing
/// first. Every failure, and a response that asks for close, marks the
/// connection destroy-on-drop; the flag is the second component.
pub fn conclude_h1_send<T, E>(res: Option<Result<(T, bool), E>>) -> (r: (
    Result<T, SendError<E>>,
    bool,
))
    ensures
        match res {
            Some(Ok((v, is_close))) => r.0 == Result::<T, SendError<E>>::Ok(v) && r.1 == is_close,
            Some(Err(e)) => r.0 == Result::<T, SendError<E>>::Err(SendError::Inner(e)) && r.1,
            None => r.0 == Result::<T, SendError<E>>::Err(
                SendError::Timeout(TimeoutError::Request),
            ) && r.1,
        },
{
    match res {
        Some(Ok((v, is_close))) => (Ok(v), is_close),
        Some(Err(e)) => (Err(SendError::Inner(e)), true),
        None => (Err(SendError::Timeout(TimeoutError::Request)), true),
    }
}

/// Conclude a multiplexed (HTTP/2 or HTTP/3) send: `None` stands for the
/// request timer firing first. Only failures mark the connection
/// destroy-on-drop; a shared connection stays pooled on success.
pub fn conclude_mux_send<T, E>(res: Option<Result<T, E>>) -> (r: (Result<T, SendError<E>>, bool))
    ensures
        match res {
            Some(Ok(v)) => r.0 == Result::<T, SendError<E>>::Ok(v) && !r.1,
            Some(Err(e)) => r.0 == Result::<T, SendError<E>>::Err(SendError::Inner(e)) && r.1,
            None => r.0 == Result::<T, SendError<E>>::Err(
                SendError::Timeout(TimeoutError::Request),
            ) && r.1,
        },
{
    match res {
        Some(Ok(v)) => (Ok(v), false),
        Some(Err(e)) => (Err(SendError::Inner(e)), true),
        None => (Err(SendError::Timeout(TimeoutError::Request)), true),
    }
}

} // verus!
