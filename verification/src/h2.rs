//! The HTTP/2 dispatcher state machines: the per-connection event loop with
//! its graceful-shutdown rule, the ping-pong heartbeat, the response-head
//! fix-up applied before headers are sent, and the flow-controlled body
//! encoder.
//!
//! The asynchronous shell that performs the socket work drives these
//! machines; every decision they make is stated in their contracts.

use crate::digits::{dec_digits, u64_to_dec};
use crate::error::{HttpServiceError, TimeoutError};
use crate::header::{
    close_value, connection, content_length, copy_range, date_header, eq_ignore_ascii_case,
    first_value, has_name, lemma_known_names_lowercase, lower_seq, spec_close_value,
    spec_connection, spec_content_length, spec_date_header, view_contains,
};
use crate::types::{BodySize, ResponseHead, Version};
use vstd::prelude::*;

verus! {

/// Whether the connection stays open once the current stream is done.
#[derive(Copy, Clone, PartialEq, Eq, Structural, Debug)]
pub enum ConnectionState {
    KeepAlive,
    Close,
}

/// The largest data frame the dispatcher hands to the connection at once.
pub const CHUNK_SIZE: usize = 16384;

/// The header view after the `Content-Length` step: a missing length header
/// is added for a body of known size.
pub open spec fn with_content_length(
    h: Seq<(Seq<u8>, Seq<u8>)>,
    size: BodySize,
) -> Seq<(Seq<u8>, Seq<u8>)> {
    match size {
        BodySize::Fixed(n) => if !view_contains(h, spec_content_length()) {
            h.push((spec_content_length(), dec_digits(n as nat)))
        } else {
            h
        },
        _ => h,
    }
}

/// The header view after the `Date` step: a missing date header is stamped
/// from the shared date handle.
pub open spec fn with_date(h: Seq<(Seq<u8>, Seq<u8>)>, date: Seq<u8>) -> Seq<(Seq<u8>, Seq<u8>)> {
    if !view_contains(h, spec_date_header()) {
        h.push((spec_date_header(), date))
    } else {
        h
    }
}

/// Whether the user asked for the connection to be closed: the first
/// `Connection` header value equals `close` up to ASCII case.
pub open spec fn asks_close(h: Seq<(Seq<u8>, Seq<u8>)>) -> bool {
    view_contains(h, spec_connection()) && lower_seq(first_value(h, spec_connection()))
        == spec_close_value()
}

/// Prepare a response head for the HTTP/2 connection: force the version to
/// HTTP/2, add `Content-Length` for a body of known size, stamp `Date` when
/// missing, and strip any `Connection` header, turning `Connection: close`
/// into a connection-level close request. Returns whether the head alone
/// ends the stream and whether the connection should shut down gracefully.
pub fn prepare_h2_response(head: &mut ResponseHead, size: BodySize, date: &[u8]) -> (r: (
    bool,
    ConnectionState,
))
    requires
        old(head).headers.wf(),
    ensures
        final(head).headers.wf(),
        final(head).version == Version::Http2,
        final(head).status == old(head).status,
        final(head).headers@ == with_date(
            with_content_length(old(head).headers@, size),
            date@,
        ).filter(|p: (Seq<u8>, Seq<u8>)| !has_name(p, spec_connection())),
        !view_contains(final(head).headers@, spec_connection()),
        r.0 == match size {
            BodySize::Empty => true,
            BodySize::Stream => false,
            BodySize::Fixed(n) => n == 0,
        },
        r.1 == if asks_close(with_date(with_content_length(old(head).headers@, size), date@)) {
            ConnectionState::Close
        } else {
            ConnectionState::KeepAlive
        },
{
    proof {
        lemma_known_names_lowercase();
    }
    head.version = Version::Http2;
    let is_eof = match size {
        BodySize::Empty => true,
        BodySize::Stream => false,
        BodySize::Fixed(n) => {
            let cl = content_length();
            if !head.headers.contains_key(cl.as_slice()) {
                head.headers.append(cl.as_slice(), u64_to_dec(n as u64));
            }
            n == 0
        },
    };
    let dh = date_header();
    if !head.headers.contains_key(dh.as_slice()) {
        let stamp = copy_range(date, 0, date.len());
        proof {
            assert(stamp@ =~= date@);
        }
        head.headers.append(dh.as_slice(), stamp);
    }
    let ghost pre_strip = head.headers@;
    let removed = head.headers.remove(connection().as_slice());
    let state = match removed {
        Some(v) => {
            if eq_ignore_ascii_case(v.as_slice(), close_value().as_slice()) {
                ConnectionState::Close
            } else {
                ConnectionState::KeepAlive
            }
        },
        None => ConnectionState::KeepAlive,
    };
    proof {
        let stripped = pre_strip.filter(|p: (Seq<u8>, Seq<u8>)| !has_name(p, spec_connection()));
        assert forall|i: int| 0 <= i < stripped.len() implies (#[trigger] stripped[i]).0
            != spec_connection() by {
            pre_strip.lemma_filter_pred(
                |p: (Seq<u8>, Seq<u8>)| !has_name(p, spec_connection()),
                i,
            );
        }
    }
    (is_eof, state)
}

/// The flow-controlled body encoder of one HTTP/2 stream. The dispatcher
/// feeds it body chunks; for each capacity grant it hands back a frame of
/// at most the granted size, splitting the pending chunk as the original
/// window allows.
pub struct H2BodyEncoder {
    pending: Vec<u8>,
    fed: usize,
    sent: usize,
}

impl H2BodyEncoder {
    /// The bytes of the current chunk not yet handed to the stream.
    pub closed spec fn spec_pending(&self) -> Seq<u8> {
        self.pending@
    }

    /// How many body bytes have been fed to the encoder.
    pub closed spec fn spec_fed(&self) -> nat {
        self.fed as nat
    }

    /// How many body bytes have been handed to the stream.
    pub closed spec fn spec_sent(&self) -> nat {
        self.sent as nat
    }

    /// Every fed byte is either already sent or still pending.
    pub open spec fn wf(&self) -> bool {
        self.spec_sent() + self.spec_pending().len() == self.spec_fed()
    }

    pub fn new() -> (r: Self)
        ensures
            r.wf(),
            r.spec_fed() == 0,
            r.spec_sent() == 0,
            r.spec_pending().len() == 0,
    {
        H2BodyEncoder { pending: Vec::new(), fed: 0, sent: 0 }
    }

    /// Accept the next body chunk; the previous one must be fully sent.
    pub fn begin_chunk(&mut self, chunk: Vec<u8>)
        requires
            old(self).wf(),
            old(self).spec_pending().len() == 0,
            old(self).spec_fed() + chunk@.len() <= usize::MAX,
        ensures
            final(self).wf(),
            final(self).spec_pending() == chunk@,
            final(self).spec_fed() == old(self).spec_fed() + chunk@.len(),
            final(self).spec_sent() == old(self).spec_sent(),
    {
        self.fed = self.fed + chunk.len();
        self.pending = chunk;
    }

    /// How much window to reserve for the pending bytes: their length,
    /// capped by the frame chunk size.
    pub fn reserve_amount(&self) -> (r: usize)
        ensures
            r == if self.spec_pending().len() < CHUNK_SIZE {
                self.spec_pending().len() as int
            } else {
                CHUNK_SIZE as int
            },
    {
        if self.pending.len() < CHUNK_SIZE {
            self.pending.len()
        } else {
            CHUNK_SIZE
        }
    }

    /// Whether the current chunk has been handed over completely.
    pub fn chunk_done(&self) -> (r: bool)
        ensures
            r == (self.spec_pending().len() == 0),
    {
        self.pending.len() == 0
    }

    /// Split a frame off the pending chunk for a capacity grant of `cap`
    /// bytes: the frame holds the first `min(cap, pending)` bytes.
    pub fn grant(&mut self, cap: usize) -> (frame: Vec<u8>)
        requires
            old(self).wf(),
            cap > 0,
            old(self).spec_pending().len() > 0,
        ensures
            final(self).wf(),
            frame@ == old(self).spec_pending().take(frame@.len() as int),
            frame@.len() == if cap < old(self).spec_pending().len() {
                cap as int
            } else {
                old(self).spec_pending().len() as int
            },
            final(self).spec_pending() == old(self).spec_pending().skip(frame@.len() as int),
            final(self).spec_sent() == old(self).spec_sent() + frame@.len(),
            final(self).spec_fed() == old(self).spec_fed(),
    {
        let len = self.pending.len();
        let k = if cap < len {
            cap
        } else {
            len
        };
        let frame = copy_range(self.pending.as_slice(), 0, k);
        let rest = copy_range(self.pending.as_slice(), k, len);
        proof {
            assert(frame@ =~= old(self).spec_pending().take(k as int));
            assert(rest@ =~= old(self).spec_pending().skip(k as int));
        }
        self.pending = rest;
        self.sent = self.sent + k;
        frame
    }
}

/// Once the body is drained, the bytes handed to the stream are exactly the
/// bytes that were fed: a response whose size hint promised `n` bytes has
/// written `n` body bytes when its final frame is out.
pub proof fn lemma_drained_encoder_sent_all(e: &H2BodyEncoder)
    requires
        e.wf(),
        e.spec_pending().len() == 0,
    ensures
        e.spec_sent() == e.spec_fed(),
{
}

/// What the heartbeat does when its timer fires.
#[derive(Copy, Clone, PartialEq, Eq, Structural, Debug)]
pub enum PingPongAction {
    /// Send an opaque PING and wait for the PONG.
    SendPing,
    /// No PONG arrived in time: the connection is dead.
    Fatal,
}

/// The dual-purpose heartbeat of an HTTP/2 connection. While no ping is in
/// flight the deadline is the keep-alive interval; when it fires a PING
/// goes out and the deadline is extended to ten times the interval. A PONG
/// must arrive before that extended deadline, or the connection fails.
pub struct H2PingPong {
    on_flight: bool,
    deadline: u64,
    ka_dur: u64,
}

impl H2PingPong {
    /// Whether a ping awaits its pong.
    pub closed spec fn spec_on_flight(&self) -> bool {
        self.on_flight
    }

    /// The instant (in milliseconds) the timer is armed for.
    pub closed spec fn spec_deadline(&self) -> u64 {
        self.deadline
    }

    /// The keep-alive interval in milliseconds.
    pub closed spec fn spec_ka_dur(&self) -> u64 {
        self.ka_dur
    }

    /// A fresh heartbeat: no ping in flight, first deadline one interval
    /// from now.
    pub fn new(now: u64, ka_dur: u64) -> (r: Self)
        requires
            now + ka_dur <= u64::MAX,
        ensures
            !r.spec_on_flight(),
            r.spec_deadline() == now + ka_dur,
            r.spec_ka_dur() == ka_dur,
    {
        H2PingPong { on_flight: false, deadline: now + ka_dur, ka_dur }
    }

    /// The timer fired at `now`. With no ping in flight this is the
    /// interval elapsing: a PING goes out and the deadline is extended to
    /// `now + 10 * ka_dur`. With a ping in flight the PONG failed to arrive
    /// within the extended deadline: the connection is declared dead.
    pub fn on_timer(&mut self, now: u64) -> (r: PingPongAction)
        requires
            now + 10 * old(self).spec_ka_dur() <= u64::MAX,
        ensures
            final(self).spec_ka_dur() == old(self).spec_ka_dur(),
            !old(self).spec_on_flight() ==> (r == PingPongAction::SendPing
                && final(self).spec_on_flight()
                && final(self).spec_deadline() == now + 10 * old(self).spec_ka_dur()),
            old(self).spec_on_flight() ==> (r == PingPongAction::Fatal
                && *final(self) == *old(self)),
    {
        if self.on_flight {
            PingPongAction::Fatal
        } else {
            self.on_flight = true;
            self.deadline = now + 10 * self.ka_dur;
            PingPongAction::SendPing
        }
    }

    /// A PONG arrived at `now`: the heartbeat returns to interval mode and
    /// the next ping is due one interval from now.
    pub fn on_pong(&mut self, now: u64)
        requires
            old(self).spec_on_flight(),
            now + old(self).spec_ka_dur() <= u64::MAX,
        ensures
            !final(self).spec_on_flight(),
            final(self).spec_deadline() == now + old(self).spec_ka_dur(),
            final(self).spec_ka_dur() == old(self).spec_ka_dur(),
    {
        self.on_flight = false;
        self.deadline = now + self.ka_dur;
    }
}

/// The events the three-way selection of the connection loop can yield.
#[derive(Copy, Clone, PartialEq, Eq, Structural, Debug)]
pub enum H2Event {
    /// The peer opened a stream and its request arrived.
    Accepted,
    /// Accepting failed with a connection error.
    AcceptFailed,
    /// The peer closed the connection.
    PeerClosed,
    /// A stream task finished and keeps the connection alive.
    StreamKeepAlive,
    /// A stream task finished and asks for a graceful shutdown.
    StreamClose,
    /// A stream task failed; the error concerns that stream alone.
    StreamFailed,
    /// The keep-alive interval elapsed with nothing to do.
    KeepAliveTimeout,
    /// The heartbeat declared the connection dead.
    PingPongFatal,
}

/// What the connection loop does in reaction to an event.
#[derive(Copy, Clone, PartialEq, Eq, Structural, Debug)]
pub enum H2Action {
    /// Run the service for the new request as a stream task.
    SpawnStream,
    /// Nothing to do.
    Ignore,
    /// Report the stream error to telemetry; the connection lives on.
    LogError,
    /// Send GOAWAY and keep draining the streams already running.
    SendGoAway,
    /// Leave the loop cleanly.
    ExitOk,
    /// Drain the remaining stream tasks, then close the connection.
    Drain,
    /// Fail the connection.
    Abort,
}

/// The connection-level state of the HTTP/2 dispatcher loop.
pub struct H2Dispatcher {
    goaway_sent: bool,
}

impl H2Dispatcher {
    /// Whether GOAWAY has been sent on this connection.
    pub closed spec fn spec_goaway_sent(&self) -> bool {
        self.goaway_sent
    }

    pub fn new() -> (r: Self)
        ensures
            !r.spec_goaway_sent(),
    {
        H2Dispatcher { goaway_sent: false }
    }

    /// React to one event of the selection. New streams are spawned only
    /// while no GOAWAY has been sent; a stream task that asked for close
    /// triggers the graceful shutdown; heartbeat failure and accept errors
    /// are fatal; the keep-alive timeout and the peer closing end the loop.
    pub fn on_event(&mut self, ev: H2Event) -> (r: H2Action)
        ensures
            r == match ev {
                H2Event::Accepted => if old(self).spec_goaway_sent() {
                    H2Action::Ignore
                } else {
                    H2Action::SpawnStream
                },
                H2Event::AcceptFailed => H2Action::Abort,
                H2Event::PeerClosed => H2Action::Drain,
                H2Event::StreamKeepAlive => H2Action::Ignore,
                H2Event::StreamClose => H2Action::SendGoAway,
                H2Event::StreamFailed => H2Action::LogError,
                H2Event::KeepAliveTimeout => H2Action::ExitOk,
                H2Event::PingPongFatal => H2Action::Abort,
            },
            final(self).spec_goaway_sent() == (old(self).spec_goaway_sent() || ev
                == H2Event::StreamClose),
            r == H2Action::SpawnStream ==> !old(self).spec_goaway_sent(),
    {
        match ev {
            H2Event::Accepted => {
                if self.goaway_sent {
                    H2Action::Ignore
                } else {
                    H2Action::SpawnStream
                }
            },
            H2Event::AcceptFailed => H2Action::Abort,
            H2Event::PeerClosed => H2Action::Drain,
            H2Event::StreamKeepAlive => H2Action::Ignore,
            H2Event::StreamClose => {
                self.goaway_sent = true;
                H2Action::SendGoAway
            },
            H2Event::StreamFailed => H2Action::LogError,
            H2Event::KeepAliveTimeout => H2Action::ExitOk,
            H2Event::PingPongFatal => H2Action::Abort,
        }
    }
}

/// After GOAWAY is out, no later event ever spawns a stream task: GOAWAY is
/// never forgotten, and a spawn is only ordered while it has not been sent.
pub proof fn lemma_no_spawn_after_goaway(pre: H2Dispatcher, post: H2Dispatcher, ev: H2Event, r: H2Action)
    requires
        pre.spec_goaway_sent(),
        post.spec_goaway_sent() == (pre.spec_goaway_sent() || ev == H2Event::StreamClose),
        r == H2Action::SpawnStream ==> !pre.spec_goaway_sent(),
    ensures
        r != H2Action::SpawnStream,
        post.spec_goaway_sent(),
{
}

/// The TLS accept phase of the HTTP/2 service: `None` stands for the accept
/// timer firing first, which is the TLS-accept timeout.
pub fn map_tls_accept<T>(r: Option<T>) -> (out: Result<T, HttpServiceError>)
    ensures
        match r {
            Some(v) => out == Result::<T, HttpServiceError>::Ok(v),
            None => out == Result::<T, HttpServiceError>::Err(
                HttpServiceError::Timeout(TimeoutError::TlsAccept),
            ),
        },
{
    match r {
        Some(v) => Ok(v),
        None => Err(HttpServiceError::Timeout(TimeoutError::TlsAccept)),
    }
}

/// The handshake phase of the HTTP/2 service: `None` stands for the timer
/// firing before the preface finished, which is the handshake timeout.
pub fn map_h2_handshake<T>(r: Option<T>) -> (out: Result<T, HttpServiceError>)
    ensures
        match r {
            Some(v) => out == Result::<T, HttpServiceError>::Ok(v),
            None => out == Result::<T, HttpServiceError>::Err(
                HttpServiceError::Timeout(TimeoutError::H2Handshake),
            ),
        },
{
    match r {
        Some(v) => Ok(v),
        None => Err(HttpServiceError::Timeout(TimeoutError::H2Handshake)),
    }
}

/// Readiness of the HTTP/2 service: the TLS acceptor and the inner service
/// must both be ready, anything else is a readiness error.
pub fn service_ready(tls_ready: bool, svc_ready: bool) -> (r: Result<(), HttpServiceError>)
    ensures
        (tls_ready && svc_ready) ==> r is Ok,
        !(tls_ready && svc_ready) ==> r == Result::<(), HttpServiceError>::Err(
            HttpServiceError::ServiceReady,
        ),
{
    if tls_ready && svc_ready {
        Ok(())
    } else {
        Err(HttpServiceError::ServiceReady)
    }
}

} // verus!
