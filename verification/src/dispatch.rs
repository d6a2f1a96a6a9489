//! The HTTP/1 per-connection dispatcher: the explicit state machine that
//! the IO shell drives, and the pure half-duplex pipeline that turns parsed
//! requests into response bytes in arrival order.

use crate::codec::{
    decide_ctype, decide_request_framing, decode_head, encode_response_head, is_expect_request,
    spec_encode_response_head, TransferCoding, CR, LF, SP,
};
use crate::context::ConnectionType;
use crate::digits::{dec_digits, u64_to_dec};
use crate::error::ProtoError;
use crate::header::{content_length, spec_content_length, values_view, HeaderMap};
use vstd::prelude::*;

verus! {

/// The states of the per-connection dispatcher.
#[derive(Copy, Clone, PartialEq, Eq, Structural, Debug)]
pub enum H1State {
    /// Waiting for the socket to become readable or the deadline to fire.
    Idle,
    /// Reading and parsing the next request head.
    Reading,
    /// The service call is running.
    Dispatching,
    /// The response is being written.
    Writing,
    /// The connection is being shut down.
    Closing,
    /// The raw stream has been surrendered to the upgrade handler.
    Upgraded,
}

/// What the IO shell observed.
#[derive(Copy, Clone, PartialEq, Eq, Structural, Debug)]
pub enum H1Event {
    /// The socket became readable while idle.
    Readable,
    /// The keep-alive deadline fired while idle.
    Deadline,
    /// A complete request head was parsed; the flag says whether it
    /// carried `Expect: 100-continue`.
    HeadParsed(bool),
    /// The buffer does not hold a complete head yet.
    HeadIncomplete,
    /// The head could not be parsed.
    ParseFailed,
    /// The service produced its response.
    ResponseReady,
    /// The service failed; the flag says whether response headers had
    /// already been written.
    ServiceFailed(bool),
    /// The response was fully written and this is the connection type the
    /// request asked for.
    WriteDone(ConnectionType),
    /// Writing failed.
    WriteFailed,
}

/// What the IO shell must do next.
#[derive(Copy, Clone, PartialEq, Eq, Structural, Debug)]
pub enum H1Action {
    /// Begin reading a request head.
    StartRead,
    /// Flush and shut the connection down gracefully.
    GracefulClose,
    /// Read more bytes into the buffer.
    ReadMore,
    /// Write `HTTP/1.1 100 Continue` before the body is read, then call
    /// the service.
    WriteContinueThenCall,
    /// Call the service with the parsed request.
    CallService,
    /// Write a best-effort `400 Bad Request`, then drop without flush.
    WriteBadRequestThenForceClose,
    /// Stream the response out.
    WriteResponse,
    /// Write a `500 Internal Server Error`: no headers are out yet.
    WriteServerError,
    /// Drop the connection without flush.
    ForceClose,
    /// Reset the per-request state and wait for the next request.
    ResetThenIdle,
    /// Hand the raw stream and the unparsed read buffer to the upgrade
    /// handler.
    HandOffUpgrade,
    /// The event does not belong to this state; nothing happens.
    Stay,
}

/// One step of the dispatcher: the next state and what the shell must do.
/// Half-duplex pipelining is built in: reading the next head is ordered
/// only from `Idle`, which is reached again only after `WriteDone`.
pub fn h1_step(state: H1State, event: H1Event) -> (r: (H1State, H1Action))
    ensures
        r == spec_h1_step(state, event),
{
    match (state, event) {
        (H1State::Idle, H1Event::Readable) => (H1State::Reading, H1Action::StartRead),
        (H1State::Idle, H1Event::Deadline) => (H1State::Closing, H1Action::GracefulClose),
        (H1State::Reading, H1Event::HeadIncomplete) => (H1State::Reading, H1Action::ReadMore),
        (H1State::Reading, H1Event::HeadParsed(expect)) => {
            if expect {
                (H1State::Dispatching, H1Action::WriteContinueThenCall)
            } else {
                (H1State::Dispatching, H1Action::CallService)
            }
        },
        (H1State::Reading, H1Event::ParseFailed) => (
            H1State::Closing,
            H1Action::WriteBadRequestThenForceClose,
        ),
        (H1State::Dispatching, H1Event::ResponseReady) => (
            H1State::Writing,
            H1Action::WriteResponse,
        ),
        (H1State::Dispatching, H1Event::ServiceFailed(headers_sent)) => {
            if headers_sent {
                (H1State::Closing, H1Action::ForceClose)
            } else {
                (H1State::Writing, H1Action::WriteServerError)
            }
        },
        (H1State::Writing, H1Event::WriteDone(ctype)) => {
            match ctype {
                ConnectionType::KeepAlive => (H1State::Idle, H1Action::ResetThenIdle),
                ConnectionType::Close => (H1State::Closing, H1Action::GracefulClose),
                ConnectionType::Upgrade => (H1State::Upgraded, H1Action::HandOffUpgrade),
                _ => (H1State::Closing, H1Action::ForceClose),
            }
        },
        (H1State::Writing, H1Event::WriteFailed) => (H1State::Closing, H1Action::ForceClose),
        (s, _) => (s, H1Action::Stay),
    }
}

/// The transition table of the dispatcher.
pub open spec fn spec_h1_step(state: H1State, event: H1Event) -> (H1State, H1Action) {
    match (state, event) {
        (H1State::Idle, H1Event::Readable) => (H1State::Reading, H1Action::StartRead),
        (H1State::Idle, H1Event::Deadline) => (H1State::Closing, H1Action::GracefulClose),
        (H1State::Reading, H1Event::HeadIncomplete) => (H1State::Reading, H1Action::ReadMore),
        (H1State::Reading, H1Event::HeadParsed(expect)) => if expect {
            (H1State::Dispatching, H1Action::WriteContinueThenCall)
        } else {
            (H1State::Dispatching, H1Action::CallService)
        },
        (H1State::Reading, H1Event::ParseFailed) => (
            H1State::Closing,
            H1Action::WriteBadRequestThenForceClose,
        ),
        (H1State::Dispatching, H1Event::ResponseReady) => (
            H1State::Writing,
            H1Action::WriteResponse,
        ),
        (H1State::Dispatching, H1Event::ServiceFailed(headers_sent)) => if headers_sent {
            (H1State::Closing, H1Action::ForceClose)
        } else {
            (H1State::Writing, H1Action::WriteServerError)
        },
        (H1State::Writing, H1Event::WriteDone(ctype)) => match ctype {
            ConnectionType::KeepAlive => (H1State::Idle, H1Action::ResetThenIdle),
            ConnectionType::Close => (H1State::Closing, H1Action::GracefulClose),
            ConnectionType::Upgrade => (H1State::Upgraded, H1Action::HandOffUpgrade),
            _ => (H1State::Closing, H1Action::ForceClose),
        },
        (H1State::Writing, H1Event::WriteFailed) => (H1State::Closing, H1Action::ForceClose),
        (s, _) => (s, H1Action::Stay),
    }
}

/// A request head is parsed only while no response is outstanding: the only
/// step that starts a read is from `Idle`, and after a head is parsed the
/// dispatcher passes through `Writing` and `WriteDone` before it reaches
/// `Idle` again. Together with `serve_pipelined` below this keeps responses
/// in request-arrival order.
pub proof fn lemma_half_duplex(state: H1State, event: H1Event)
    ensures
        spec_h1_step(state, event).1 == H1Action::StartRead ==> state == H1State::Idle,
        spec_h1_step(state, event).0 == H1State::Idle && state != H1State::Idle ==> (state
            == H1State::Writing && event == H1Event::WriteDone(ConnectionType::KeepAlive)),
{
}

/// The most unread request-body bytes the dispatcher drains and discards
/// after a response, when the service did not consume the body itself.
pub const DRAIN_CEILING: usize = 65536;

/// Whether an unread request body may be drained after the response: up to
/// the ceiling it is discarded; beyond it the connection is force-closed
/// with a body-overflow error.
pub fn check_drain_ceiling(unread: usize, ceiling: usize) -> (r: Result<usize, ProtoError>)
    ensures
        unread <= ceiling ==> r == Result::<usize, ProtoError>::Ok(unread),
        unread > ceiling ==> r == Result::<usize, ProtoError>::Err(ProtoError::BodyOverflow),
{
    if unread <= ceiling {
        Ok(unread)
    } else {
        Err(ProtoError::BodyOverflow)
    }
}

/// A response the service produced, ready for encoding.
pub struct H1Response {
    pub status: u16,
    pub reason: Vec<u8>,
    pub headers: HeaderMap,
    pub body: Vec<u8>,
}

/// The wire bytes of a response head followed by its body.
pub open spec fn response_wire(
    status: u16,
    reason: Seq<u8>,
    h: Seq<(Seq<u8>, Seq<u8>)>,
    date: Seq<u8>,
    body: Seq<u8>,
) -> Seq<u8> {
    spec_encode_response_head(status, reason, h, date) + body
}

/// A byte sequence that begins with one complete, well-formed response
/// head: nothing the peer sees is a partial header flush.
pub open spec fn is_h1_response_wire(s: Seq<u8>) -> bool {
    exists|p: (u16, Seq<u8>, Seq<(Seq<u8>, Seq<u8>)>, Seq<u8>, Seq<u8>)| s == #[trigger] response_wire(
        p.0,
        p.1,
        p.2,
        p.3,
        p.4,
    )
}

/// The interim response written for `Expect: 100-continue`:
/// `HTTP/1.1 100 Continue` and the empty header section.
pub open spec fn spec_continue_wire() -> Seq<u8> {
    seq![
        72u8, 84u8, 84u8, 80u8, 47u8, 49u8, 46u8, 49u8, SP, 49u8, 48u8, 48u8, SP, 67u8, 111u8,
        110u8, 116u8, 105u8, 110u8, 117u8, 101u8, CR, LF, CR, LF,
    ]
}

/// Write the `100 Continue` interim response.
pub fn continue_wire() -> (r: Vec<u8>)
    ensures
        r@ == spec_continue_wire(),
{
    let v: Vec<u8> = vec![
        72u8, 84u8, 84u8, 80u8, 47u8, 49u8, 46u8, 49u8, SP, 49u8, 48u8, 48u8, SP, 67u8, 111u8,
        110u8, 116u8, 105u8, 110u8, 117u8, 101u8, CR, LF, CR, LF,
    ];
    proof {
        assert(v@ =~= spec_continue_wire());
    }
    v
}

/// One wire segment the dispatcher emits: either the interim continue
/// response or a complete response.
pub open spec fn is_h1_segment(s: Seq<u8>) -> bool {
    is_h1_response_wire(s) || s == spec_continue_wire()
}


/// The wire bytes of one prepared response: its head, then its body.
pub open spec fn wire_of_response(resp: H1Response, date: Seq<u8>) -> Seq<u8> {
    spec_encode_response_head(resp.status, resp.reason@, resp.headers@, date) + resp.body@
}

/// What serving pipelined requests yields, request by request: the wire
/// segments gathered so far in `acc`, the current connection type, and the
/// read position. One step parses a head at `pos`, decides the framing and
/// consumes the body, emits the interim continue line and the next
/// prepared response, and goes on only while the connection keeps alive.
pub open spec fn spec_serve_pipelined(
    s: Seq<u8>,
    pos: int,
    resps: Seq<H1Response>,
    acc: Seq<Seq<u8>>,
    ctype: ConnectionType,
    limit: int,
    date: Seq<u8>,
) -> (Seq<Seq<u8>>, ConnectionType, int)
    decreases resps.len(),
{
    if resps.len() == 0 || !(0 <= pos <= s.len()) {
        (acc, ctype, pos)
    } else {
        match crate::codec::spec_decode_head(s.skip(pos), limit) {
            None => (acc, ctype, pos),
            Some(Err(_)) => (acc.push(spec_bad_request_wire(date)), ConnectionType::CloseForce, pos),
            Some(Ok((rl, hs, end))) => {
                let after_head = pos + end;
                let body_out: Result<Option<int>, ()> = match crate::codec::spec_request_framing(
                    rl.0,
                    hs,
                ) {
                    Err(_) => Err(()),
                    Ok(TransferCoding::Length(n)) => if after_head + n <= s.len() {
                        Ok(Some(after_head + n))
                    } else {
                        Ok(None)
                    },
                    Ok(TransferCoding::Chunked) => match crate::codec::spec_decode_chunked(
                        s.skip(after_head),
                        0,
                        Seq::empty(),
                    ) {
                        Some(Ok((_, used))) => Ok(Some(after_head + used)),
                        Some(Err(_)) => Err(()),
                        None => Ok(None),
                    },
                    Ok(_) => Ok(Some(after_head)),
                };
                match body_out {
                    Err(_) => (
                        acc.push(spec_bad_request_wire(date)),
                        ConnectionType::CloseForce,
                        pos,
                    ),
                    Ok(None) => (acc, ctype, pos),
                    Ok(Some(next_pos)) => {
                        let acc1 = if crate::codec::spec_is_expect(hs) {
                            acc.push(spec_continue_wire())
                        } else {
                            acc
                        };
                        let acc2 = acc1.push(wire_of_response(resps[0], date));
                        let ct = crate::codec::spec_ctype_policy(rl.2, hs);
                        if ct == ConnectionType::KeepAlive {
                            spec_serve_pipelined(
                                s,
                                next_pos,
                                resps.drop_first(),
                                acc2,
                                ct,
                                limit,
                                date,
                            )
                        } else {
                            (acc2, ct, next_pos)
                        }
                    },
                }
            },
        }
    }
}

/// Serve pipelined requests from one read buffer, half duplex: request `k`
/// is answered with `responses[k]`, each response is emitted completely
/// before the next request is parsed, and the connection type follows the
/// request's version and `Connection` header. Fixed-length and chunked
/// request bodies are consumed from the buffer. A parse or framing error
/// yields a best-effort `400 Bad Request` and a forced close.
///
/// Returns the emitted wire segments in order, the final connection type,
/// and how many input bytes were consumed: an unparsed tail stays with the
/// caller. Every segment the peer sees is complete — a forced close never
/// leaves a partial header flush behind, only the whole `400` it follows.
#[verifier::loop_isolation(false)]
pub fn serve_pipelined(input: &[u8], limit: usize, responses: Vec<H1Response>, date: &[u8]) -> (r:
    (Vec<Vec<u8>>, ConnectionType, usize))
    ensures
        ({
            let out = spec_serve_pipelined(
                input@,
                0,
                responses@,
                Seq::empty(),
                ConnectionType::KeepAlive,
                limit as int,
                date@,
            );
            values_view(r.0@) == out.0 && r.1 == out.1 && r.2 == out.2
        }),
        forall|k: int| 0 <= k < r.0@.len() ==> is_h1_segment(#[trigger] r.0@[k]@),
        r.1 != ConnectionType::Init,
        r.1 == ConnectionType::CloseForce ==> r.0@.len() > 0,
        r.2 <= input@.len(),
{
    let mut segs: Vec<Vec<u8>> = Vec::new();
    let mut responses = responses;
    let mut pos: usize = 0;
    let mut ctype = ConnectionType::KeepAlive;
    let n = responses.len();
    let mut served: usize = 0;
    let ghost whole = spec_serve_pipelined(
        input@,
        0,
        responses@,
        Seq::empty(),
        ConnectionType::KeepAlive,
        limit as int,
        date@,
    );
    proof {
        assert(values_view(segs@) =~= Seq::<Seq<u8>>::empty());
    }
    while served < n
        invariant
            pos <= input@.len(),
            served <= n,
            n == responses@.len() + served,
            ctype != ConnectionType::Init,
            ctype != ConnectionType::CloseForce,
            forall|k: int| 0 <= k < segs@.len() ==> is_h1_segment(#[trigger] segs@[k]@),
            whole == spec_serve_pipelined(
                input@,
                pos as int,
                responses@,
                values_view(segs@),
                ctype,
                limit as int,
                date@,
            ),
        decreases n - served,
    {
        let window = crate::header::copy_range(input, pos, input.len());
        proof {
            assert(window@ =~= input@.skip(pos as int));
        }
        let fresh = HeaderMap::new();
        match decode_head(window.as_slice(), limit, fresh) {
            Ok(Some((head, used))) => {
                let expect = is_expect_request(&head.headers);
                let framing = decide_request_framing(head.method, &head.headers);
                let mut next_pos = pos + used;
                let mut body_ok = true;
                match framing {
                    Ok(TransferCoding::Length(blen)) => {
                        if blen <= input.len() - next_pos {
                            next_pos = next_pos + blen;
                        } else {
                            body_ok = false;
                        }
                    },
                    Ok(TransferCoding::Chunked) => {
                        let rest = crate::header::copy_range(input, next_pos, input.len());
                        proof {
                            assert(rest@ =~= input@.skip(next_pos as int));
                        }
                        match crate::codec::decode_chunked(rest.as_slice()) {
                            Ok(Some((_, chunk_used))) => {
                                next_pos = next_pos + chunk_used;
                            },
                            Ok(None) => {
                                body_ok = false;
                            },
                            Err(_) => {
                                let bad = bad_request_wire(date);
                                let ghost pre = segs@;
                                segs.push(bad);
                                proof {
                                    crate::header::lemma_values_view_push(
                                        pre,
                                        segs@[pre.len() as int],
                                    );
                                }
                                return (segs, ConnectionType::CloseForce, pos);
                            },
                        }
                    },
                    Ok(_) => {},
                    Err(_) => {
                        let bad = bad_request_wire(date);
                        let ghost pre = segs@;
                        segs.push(bad);
                        proof {
                            crate::header::lemma_values_view_push(pre, segs@[pre.len() as int]);
                        }
                        return (segs, ConnectionType::CloseForce, pos);
                    },
                }
                if !body_ok {
                    return (segs, ctype, pos);
                }
                let ghost acc1 = if expect {
                    values_view(segs@).push(spec_continue_wire())
                } else {
                    values_view(segs@)
                };
                if expect {
                    let ghost pre = segs@;
                    segs.push(continue_wire());
                    proof {
                        crate::header::lemma_values_view_push(pre, segs@[pre.len() as int]);
                        assert(values_view(segs@) == acc1);
                    }
                }
                let resp = responses.remove(0);
                let wire = encode_response_head(
                    resp.status,
                    resp.reason.as_slice(),
                    &resp.headers,
                    date,
                );
                let mut wire = wire;
                crate::buf::extend_from_slice(&mut wire, resp.body.as_slice());
                proof {
                    let p = (resp.status, resp.reason@, resp.headers@, date@, resp.body@);
                    assert(wire@ == response_wire(p.0, p.1, p.2, p.3, p.4));
                    assert(is_h1_response_wire(wire@));
                    assert(wire@ == wire_of_response(resp, date@));
                }
                let ghost pre = segs@;
                segs.push(wire);
                proof {
                    crate::header::lemma_values_view_push(pre, segs@[pre.len() as int]);
                    assert(values_view(segs@) == acc1.push(wire_of_response(resp, date@)));
                }
                served = served + 1;
                pos = next_pos;
                ctype = decide_ctype(head.version, &head.headers);
                match ctype {
                    ConnectionType::KeepAlive => {},
                    _ => {
                        return (segs, ctype, pos);
                    },
                }
            },
            Ok(None) => {
                return (segs, ctype, pos);
            },
            Err(_) => {
                let bad = bad_request_wire(date);
                let ghost pre = segs@;
                segs.push(bad);
                proof {
                    crate::header::lemma_values_view_push(pre, segs@[pre.len() as int]);
                }
                return (segs, ConnectionType::CloseForce, pos);
            },
        }
    }
    (segs, ctype, pos)
}

/// The reason phrase of the best-effort error response.
pub open spec fn spec_bad_request_reason() -> Seq<u8> {
    seq![66u8, 97u8, 100u8, SP, 82u8, 101u8, 113u8, 117u8, 101u8, 115u8, 116u8]
}

/// The best-effort `400 Bad Request` on the wire: a complete response head
/// announcing an empty body.
pub open spec fn spec_bad_request_wire(date: Seq<u8>) -> Seq<u8> {
    spec_encode_response_head(
        400,
        spec_bad_request_reason(),
        seq![(spec_content_length(), dec_digits(0))],
        date,
    )
}

/// Write the best-effort `400 Bad Request` emitted on a parse error.
fn bad_request_wire(date: &[u8]) -> (r: Vec<u8>)
    ensures
        r@ == spec_bad_request_wire(date@),
        is_h1_segment(r@),
{
    proof {
        crate::header::lemma_known_names_lowercase();
    }
    let mut headers = HeaderMap::new();
    headers.append(content_length().as_slice(), u64_to_dec(0));
    let reason: Vec<u8> = vec![66u8, 97u8, 100u8, SP, 82u8, 101u8, 113u8, 117u8, 101u8, 115u8, 116u8];
    let wire = encode_response_head(400, reason.as_slice(), &headers, date);
    proof {
        assert(headers@ =~= seq![(spec_content_length(), dec_digits(0))]);
        assert(reason@ =~= spec_bad_request_reason());
        assert(wire@ + Seq::<u8>::empty() =~= wire@);
        let p = (400u16, reason@, headers@, date@, Seq::<u8>::empty());
        assert(wire@ == response_wire(p.0, p.1, p.2, p.3, p.4));
        assert(is_h1_response_wire(wire@));
    }
    wire
}

/// Concatenate wire segments in order onto one output buffer.
#[verifier::loop_isolation(false)]
pub fn concat_segments(segs: &Vec<Vec<u8>>) -> (r: Vec<u8>)
    ensures
        r@ == crate::header::values_view(segs@).flatten(),
{
    let mut out: Vec<u8> = Vec::new();
    let mut i: usize = 0;
    proof {
        assert(crate::header::values_view(segs@).take(0).flatten() =~= Seq::<u8>::empty()) by {
            reveal_with_fuel(Seq::<_>::flatten, 2);
        }
    }
    while i < segs.len()
        invariant
            i <= segs@.len(),
            out@ == crate::header::values_view(segs@).take(i as int).flatten(),
        decreases segs@.len() - i,
    {
        let ghost vw = crate::header::values_view(segs@);
        crate::buf::extend_from_slice(&mut out, segs[i].as_slice());
        proof {
            assert(vw.take(i as int + 1).drop_last() =~= vw.take(i as int));
            vw.take(i as int).lemma_flatten_push(vw[i as int]);
            assert(vw.take(i as int + 1) =~= vw.take(i as int).push(vw[i as int]));
            assert(out@ =~= vw.take(i as int + 1).flatten());
        }
        i = i + 1;
    }
    proof {
        assert(crate::header::values_view(segs@).take(segs@.len() as int) =~= crate::header::values_view(segs@));
    }
    out
}

/// Where segment `k` lies in the concatenated output.
pub open spec fn segment_offset(s: Seq<Seq<u8>>, k: int) -> int {
    s.take(k).flatten().len() as int
}

/// In the concatenation of the segments, segment `k` occupies the byte
/// range from its offset to the next segment's offset, and those offsets
/// never decrease: the bytes of an earlier response lie strictly before
/// the bytes of a later one.
pub proof fn lemma_segment_order(s: Seq<Seq<u8>>, k: int)
    requires
        0 <= k < s.len(),
    ensures
        segment_offset(s, k) + s[k].len() == segment_offset(s, k + 1),
        segment_offset(s, k + 1) <= s.flatten().len(),
        s.flatten().subrange(segment_offset(s, k), segment_offset(s, k + 1)) == s[k],
    decreases k,
{
    if k == 0 {
        assert(s.take(0).flatten() =~= Seq::<u8>::empty());
        assert(s.take(1).drop_last() =~= s.take(0));
        assert(s.take(1).flatten() =~= s[0]) by {
            reveal_with_fuel(Seq::<_>::flatten, 3);
        }
        lemma_flatten_prefix(s, 1);
        assert(s.flatten().subrange(0, s[0].len() as int) =~= s[0]);
    } else {
        let t = s.drop_first();
        lemma_segment_order(t, k - 1);
        lemma_flatten_first_seg(s);
        assert(s.take(k).drop_first() =~= t.take(k - 1));
        lemma_flatten_first_seg(s.take(k));
        assert(s.take(k)[0] == s[0]);
        assert(s.take(k).flatten().len() == s[0].len() + t.take(k - 1).flatten().len());
        assert(s.take(k + 1).drop_first() =~= t.take(k));
        lemma_flatten_first_seg(s.take(k + 1));
        assert(s.take(k + 1)[0] == s[0]);
        assert(s.take(k + 1).flatten().len() == s[0].len() + t.take(k).flatten().len());
        assert(s[k] == t[k - 1]);
        let o = s[0].len() as int;
        assert(s.flatten() == s[0] + t.flatten());
        assert(segment_offset(s, k) == o + segment_offset(t, k - 1));
        assert(segment_offset(s, k + 1) == o + segment_offset(t, k));
        assert(s.flatten().subrange(segment_offset(s, k), segment_offset(s, k + 1)) =~= t.flatten()
            .subrange(segment_offset(t, k - 1), segment_offset(t, k)));
    }
}

/// A non-empty sequence of segments flattens to its first segment followed
/// by the rest.
proof fn lemma_flatten_first_seg(s: Seq<Seq<u8>>)
    requires
        s.len() > 0,
    ensures
        s.flatten() == s[0] + s.drop_first().flatten(),
{
    reveal_with_fuel(Seq::<_>::flatten, 2);
}

/// The flattening of a prefix is a prefix of the flattening.
proof fn lemma_flatten_prefix(s: Seq<Seq<u8>>, k: int)
    requires
        0 <= k <= s.len(),
    ensures
        s.take(k).flatten().len() <= s.flatten().len(),
        s.flatten().take(s.take(k).flatten().len() as int) == s.take(k).flatten(),
    decreases s.len(),
{
    if k == 0 {
        assert(s.take(0).flatten() =~= Seq::<u8>::empty()) by {
            reveal_with_fuel(Seq::<_>::flatten, 2);
        }
        assert(s.flatten().take(0) =~= Seq::<u8>::empty());
    } else {
        let t = s.drop_first();
        lemma_flatten_first_seg(s);
        lemma_flatten_first_seg(s.take(k));
        assert(s.take(k)[0] == s[0]);
        assert(s.take(k).drop_first() =~= t.take(k - 1));
        lemma_flatten_prefix(t, k - 1);
        assert(s.take(k).flatten() == s[0] + t.take(k - 1).flatten());
        assert(s.flatten() == s[0] + t.flatten());
        assert(s.flatten().take(s.take(k).flatten().len() as int) =~= s.take(k).flatten());
    }
}

} // verus!
