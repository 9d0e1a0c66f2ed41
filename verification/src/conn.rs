//! The peer connection: accepts outgoing requests, routes inbound frames,
//! and propagates terminal failure to every outstanding and future caller.
//!
//! This type holds the connection's whole decision state — the correlator,
//! the once-settable terminal error and the receive loop's lifecycle — while
//! the transport around it performs the I/O: `req` hands back the exact
//! bytes to write in one atomic (vectored) call, and the receive loop feeds
//! what it observes into `daemon_step`, which decides, updates the state and
//! answers with the next action. The loop's lifecycle is the explicit state
//! machine {Running, Draining, Stopped}: any terminal-error detection moves
//! it to Draining, and one complete drain of the correlator — fulfilling
//! every still-pending promise with the terminal error — moves it to
//! Stopped.

use vstd::prelude::*;

use crate::codec::MsgKind;
use crate::codec::encode_req;
use crate::codec::encode_wire;
use crate::codec::decode_frame;
use crate::codec::decode_req;
use crate::codec::frame_bytes;
use crate::codec::lemma_frame_round_trip;
use crate::codec::lemma_req_body_len;
use crate::codec::lemma_req_round_trip;
use crate::codec::lemma_wire_round_trip;
use crate::codec::parse_frame;
use crate::codec::parse_req;
use crate::codec::req_args_ok;
use crate::codec::req_body;
use crate::codec::views;
use crate::codec::wire_bytes;
use crate::codec::wire_split;
use crate::correlator::Correlator;
use crate::correlator::PeerResponse;
use crate::correlator::PendingPeerResponse;
use crate::errors::CodecError;
use crate::errors::ConnError;
use crate::errors::IoFault;
use crate::errors::ReqError;

verus! {

/// The receive loop's lifecycle.
#[derive(Clone, Copy, Debug, PartialEq, Eq, Structural)]
pub enum LoopState {
    /// Serving: reading frames and routing them.
    Running,
    /// A terminal error was detected; the correlator is about to be drained.
    Draining,
    /// Drained; the loop is done and the socket can be closed.
    Stopped,
}

/// One observation the transport hands to the receive loop.
#[derive(Debug)]
pub enum NetEvent {
    /// One complete inbound frame, without its length prefix.
    Frame(Vec<u8>),
    /// The bounded read returned nothing, or the loop is taking its
    /// per-iteration look at the clock; the payload is the clock now, in
    /// milliseconds. Either way the step checks request staleness and the
    /// terminal flag.
    ReadTimeout(u64),
    /// The transport failed with this operating-system error code.
    Failure(i32),
}

/// What the receive loop should do next.
#[derive(Debug)]
pub enum DaemonAction {
    /// Keep reading.
    Continue,
    /// An inbound request: hand these arguments to the application's
    /// handler, replying (if the identifier is non-zero) under the same
    /// identifier.
    Forward(u64, Vec<Vec<u8>>),
    /// The connection is terminal and drained: close the socket and stop.
    Exit,
}

/// The complete on-wire bytes of one outgoing request.
pub open spec fn wire_req(id: u64, args: Seq<Seq<u8>>) -> Seq<u8> {
    wire_bytes(frame_bytes(MsgKind::Request, id, req_body(args)))
}

/// Round trip for a whole on-wire request unit: what `req` hands the
/// transport splits back into exactly one frame with nothing left over, the
/// frame parses as a request under the same identifier, and its body parses
/// back to exactly the arguments that were encoded.
pub proof fn lemma_wire_req_round_trip(id: u64, args: Seq<Seq<u8>>)
    requires
        req_args_ok(args),
    ensures
        wire_split(wire_req(id, args)) == Some(
            (frame_bytes(MsgKind::Request, id, req_body(args)), Seq::<u8>::empty()),
        ),
        parse_frame(frame_bytes(MsgKind::Request, id, req_body(args))) == Some(
            (MsgKind::Request, id, req_body(args)),
        ),
        parse_req(req_body(args)) == Some(args),
{
    lemma_req_body_len(args);
    let frame = frame_bytes(MsgKind::Request, id, req_body(args));
    lemma_wire_round_trip(frame, Seq::<u8>::empty());
    assert(wire_bytes(frame) + Seq::<u8>::empty() =~= wire_bytes(frame));
    lemma_frame_round_trip(MsgKind::Request, id, req_body(args));
    lemma_req_round_trip(args);
}

/// The error a drain delivers: the recorded terminal error, or `Closed` if
/// somehow none was recorded.
pub open spec fn terminal_or_closed(c: PeerConn) -> ConnError {
    match c.errState() {
        Some(e) => e,
        None => ConnError::Closed,
    }
}

/// How a completed drain relates the connection's model to what it was:
/// every promise that was already settled is untouched, every pending one
/// is fulfilled with the terminal error, no promise is left unresolved, and
/// no request stays registered.
pub open spec fn drained_from(pre: PeerConn, post: PeerConn, e: ConnError) -> bool {
    &&& post.slots().len() == pre.slots().len()
    &&& forall|i: int|
        0 <= i < pre.slots().len() && pre.slots()[i].done() ==> post.slots()[i] == pre.slots()[i]
    &&& forall|i: int|
        0 <= i < pre.slots().len() && !pre.slots()[i].done() ==> post.slots()[i].value() == Some(
            Err::<Vec<u8>, ConnError>(e),
        )
    &&& forall|i: int| 0 <= i < post.slots().len() ==> (#[trigger] post.slots()[i]).done()
    &&& post.ids() == Map::<u64, u64>::empty()
}

/// That a promise slot settled successfully with exactly these payload
/// bytes.
pub open spec fn slot_holds_payload(p: PendingPeerResponse, payload: Seq<u8>) -> bool {
    match p.value() {
        Some(r) => match r {
            Ok(v) => v@ == payload,
            Err(_) => false,
        },
        None => false,
    }
}

/// That two connection states agree on the whole observable model.
pub open spec fn same_model(pre: PeerConn, post: PeerConn) -> bool {
    &&& post.ids() == pre.ids()
    &&& post.slots() == pre.slots()
    &&& post.nextId() == pre.nextId()
    &&& post.errState() == pre.errState()
    &&& post.loopState() == pre.loopState()
    &&& post.timeoutMs() == pre.timeoutMs()
    &&& post.buffSize() == pre.buffSize()
}

/// That two connection states agree on everything but the terminal error.
pub open spec fn same_but_err(pre: PeerConn, post: PeerConn) -> bool {
    &&& post.ids() == pre.ids()
    &&& post.slots() == pre.slots()
    &&& post.nextId() == pre.nextId()
    &&& post.loopState() == pre.loopState()
    &&& post.timeoutMs() == pre.timeoutMs()
    &&& post.buffSize() == pre.buffSize()
}

/// The peer connection's decision state.
pub struct PeerConn {
    corr: Correlator,
    err_state: Option<ConnError>,
    loop_state: LoopState,
    timeout_ms: u64,
    buff_size: usize,
}

impl PeerConn {
    /// The pending request identifiers, each mapped to its promise slot.
    pub closed spec fn ids(self) -> Map<u64, u64> {
        self.corr.ids()
    }

    /// All promise slots ever created on this connection.
    pub closed spec fn slots(self) -> Seq<PendingPeerResponse> {
        self.corr.slot_seq()
    }

    /// The identifier the next request will be issued.
    #[allow(non_snake_case)]
    pub closed spec fn nextId(self) -> u64 {
        self.corr.next_id()
    }

    /// The recorded terminal error, if any.
    #[allow(non_snake_case)]
    pub closed spec fn errState(self) -> Option<ConnError> {
        self.err_state
    }

    /// The receive loop's lifecycle state.
    #[allow(non_snake_case)]
    pub closed spec fn loopState(self) -> LoopState {
        self.loop_state
    }

    /// The configured per-request timeout, in milliseconds.
    #[allow(non_snake_case)]
    pub closed spec fn timeoutMs(self) -> u64 {
        self.timeout_ms
    }

    /// The configured read-buffer size, in bytes.
    #[allow(non_snake_case)]
    pub closed spec fn buffSize(self) -> usize {
        self.buff_size
    }

    /// Whether some request has been pending longer than the timeout at
    /// clock reading `nowMs`.
    #[allow(non_snake_case)]
    pub closed spec fn someStale(self, nowMs: u64) -> bool {
        self.corr.some_stale(self.timeout_ms, nowMs)
    }

    /// The connection's invariant: the correlator's.
    pub closed spec fn wf(self) -> bool {
        self.corr.wf()
    }

    /// Wraps a fresh, buffer-clean transport's decision state. The timeout
    /// defaults to 10 seconds, the read buffer to 128 KiB; the transport
    /// around this type applies them to its socket.
    #[allow(non_snake_case)]
    pub fn new(timeoutMs: Option<u64>, buffSize: Option<usize>) -> (c: PeerConn)
        ensures
            c.wf(),
            c.errState() is None,
            c.loopState() == LoopState::Running,
            c.ids() == Map::<u64, u64>::empty(),
            c.slots().len() == 0,
            c.nextId() == 1,
            c.timeoutMs() == match timeoutMs {
                Some(t) => t,
                None => 10_000u64,
            },
            c.buffSize() == match buffSize {
                Some(b) => b,
                None => 131_072usize,
            },
    {
        let t = match timeoutMs {
            Some(t) => t,
            None => 10_000,
        };
        let b = match buffSize {
            Some(b) => b,
            None => 131_072,
        };
        PeerConn {
            corr: Correlator::new(),
            err_state: None,
            loop_state: LoopState::Running,
            timeout_ms: t,
            buff_size: b,
        }
    }

    /// The terminal-error check every operation starts with.
    #[allow(non_snake_case)]
    pub fn checkErrState(&self) -> (r: Result<(), ConnError>)
        ensures
            match self.errState() {
                Some(e) => r == Err::<(), ConnError>(e),
                None => r == Ok::<(), ConnError>(()),
            },
    {
        match &self.err_state {
            Some(e) => Err(*e),
            None => Ok(()),
        }
    }

    /// Records a terminal error; the first caller to set it wins, and the
    /// winning error — which every consumer will observe — is returned.
    /// Once set, the terminal state is permanent.
    #[allow(non_snake_case)]
    fn setErrState(&mut self, e: ConnError) -> (r: ConnError)
        ensures
            same_but_err(*old(self), *final(self)),
            r == match old(self).errState() {
                Some(prev) => prev,
                None => e,
            },
            final(self).errState() == Some(r),
    {
        match &self.err_state {
            Some(prev) => *prev,
            None => {
                self.err_state = Some(e);
                e
            },
        }
    }

    /// Records a transport failure as the terminal error (first one wins)
    /// and returns the winning error.
    #[allow(non_snake_case)]
    pub fn setIoError(&mut self, code: i32) -> (r: ConnError)
        ensures
            same_but_err(*old(self), *final(self)),
            r == match old(self).errState() {
                Some(prev) => prev,
                None => ConnError::IoError(IoFault::Os(code)),
            },
            final(self).errState() == Some(r),
    {
        self.setErrState(ConnError::IoError(IoFault::Os(code)))
    }

    /// Marks this connection as closed: all new requests and pending
    /// responses will get an error. Draining the pending responses is the
    /// receive loop's job, on its next step.
    pub fn close(&mut self)
        ensures
            same_but_err(*old(self), *final(self)),
            final(self).errState() == Some(
                match old(self).errState() {
                    Some(prev) => prev,
                    None => ConnError::Closed,
                },
            ),
    {
        let _ = self.setErrState(ConnError::Closed);
    }

    /// Issues one request: fails fast with the terminal error if one is
    /// recorded, rejects arguments over the wire format's bounds, and
    /// otherwise registers a fresh non-zero identifier and returns the
    /// caller's claim together with the complete on-wire bytes, which the
    /// transport must write in one atomic call. `nowMs` is the clock
    /// reading the staleness check will measure this request against.
    #[allow(non_snake_case)]
    pub fn req(&mut self, args: &Vec<Vec<u8>>, nowMs: u64) -> (r: Result<
        (PeerResponse, Vec<u8>),
        ReqError,
    >)
        requires
            old(self).wf(),
            old(self).nextId() < u64::MAX,
        ensures
            final(self).wf(),
            old(self).errState() matches Some(e) ==> r == Err::<(PeerResponse, Vec<u8>), ReqError>(
                ReqError::Terminal(e),
            ) && *final(self) == *old(self),
            old(self).errState() is None && !req_args_ok(views(args@)) ==> *final(self) == *old(self) && r == Err::<(PeerResponse, Vec<u8>), ReqError>(
                ReqError::Encode(
                    if views(args@).len() > 0xFFFF {
                        CodecError::TooManyArgs
                    } else {
                        CodecError::ArgTooLong
                    },
                ),
            ),
            old(self).errState() is None && req_args_ok(views(args@)) ==> (r matches Ok(p)
                && p.0.id() == old(self).nextId() && p.0.id() != 0 && !old(self).ids().contains_key(
                p.0.id(),
            ) && p.0.slot() == old(self).slots().len() && p.1@ == wire_req(p.0.id(), views(args@))
                && final(self).ids() == old(self).ids().insert(
                p.0.id(),
                old(self).slots().len() as u64,
            ) && final(self).slots().len() == old(self).slots().len() + 1 && (forall|i: int|
                0 <= i < old(self).slots().len() ==> final(self).slots()[i] == old(self).slots()[i])
                && !final(self).slots()[old(self).slots().len() as int].done() && final(self).slots()[old(self).slots().len() as int].issued_at() == nowMs && final(self).nextId()
                == old(self).nextId() + 1 && final(self).errState() is None && final(self).loopState() == old(self).loopState() && final(self).timeoutMs() == old(self).timeoutMs() && final(self).buffSize() == old(self).buffSize()),
    {
        match self.checkErrState() {
            Err(e) => {
                return Err(ReqError::Terminal(e));
            },
            Ok(()) => {},
        }
        let body = match encode_req(args) {
            Ok(b) => b,
            Err(ce) => {
                return Err(ReqError::Encode(ce));
            },
        };
        let id = self.corr.allocate();
        let resp = self.corr.register(id, nowMs);
        proof {
            lemma_req_body_len(views(args@));
        }
        let frame = encode_wire(MsgKind::Request, id, &body);
        Ok((resp, frame))
    }

    /// Whether the caller's promise has settled. The transport's blocking
    /// `get` waits on exactly this condition.
    #[allow(non_snake_case)]
    pub fn responseReady(&self, r: &PeerResponse) -> (b: bool)
        requires
            0 <= r.slot() < self.slots().len(),
        ensures
            b == self.slots()[r.slot()].done(),
    {
        self.corr.ready(r)
    }

    /// The settled result under the caller's claim: the routed response
    /// payload, or the terminal error the drain delivered. Every reader of
    /// the same claim observes the same result.
    pub fn response(&self, r: &PeerResponse) -> (res: &Result<Vec<u8>, ConnError>)
        requires
            0 <= r.slot() < self.slots().len(),
            self.slots()[r.slot()].done(),
        ensures
            self.slots()[r.slot()].value() == Some(*res),
    {
        self.corr.result(r)
    }

    /// Whether the identifier space still has room: `req` demands it, and
    /// exhausting a 64-bit counter is practically unreachable.
    #[allow(non_snake_case)]
    pub fn idSpaceLeft(&self) -> (b: bool)
        ensures
            b == (self.nextId() < u64::MAX),
    {
        let n = self.corr.nextIdValue();
        n < u64::MAX
    }

    /// How many promise slots this connection has created.
    #[allow(non_snake_case)]
    pub fn slotCount(&self) -> (n: usize)
        ensures
            n == self.slots().len(),
    {
        self.corr.slotCount()
    }

    /// The configured read-buffer size, for the transport to allocate by.
    #[allow(non_snake_case)]
    pub fn buffSizeValue(&self) -> (n: usize)
        ensures
            n == self.buffSize(),
    {
        self.buff_size
    }

    /// The drain itself: records `Closed` if no terminal error is recorded
    /// yet, fulfils every pending promise with the terminal error, and
    /// stops the loop.
    fn drain_now(&mut self)
        requires
            old(self).wf(),
        ensures
            final(self).wf(),
            drained_from(*old(self), *final(self), terminal_or_closed(*old(self))),
            final(self).errState() == Some(terminal_or_closed(*old(self))),
            final(self).loopState() == LoopState::Stopped,
            final(self).nextId() == old(self).nextId(),
            final(self).timeoutMs() == old(self).timeoutMs(),
            final(self).buffSize() == old(self).buffSize(),
    {
        let e = match self.checkErrState() {
            Err(e) => e,
            Ok(()) => ConnError::Closed,
        };
        let _ = self.setErrState(e);
        self.corr.drainAll(e);
        self.loop_state = LoopState::Stopped;
    }

    /// One step of the background receive loop, from one observation to the
    /// next action. Detecting a recorded terminal error — or a failure,
    /// staleness or decode error that records one — drains the correlator
    /// completely in this same step and exits; a routed response fulfils
    /// exactly its own caller's promise; an inbound request is handed out
    /// for the application to answer.
    pub fn daemon_step(&mut self, ev: NetEvent) -> (act: DaemonAction)
        requires
            old(self).wf(),
        ensures
            final(self).wf(),
            final(self).nextId() == old(self).nextId(),
            final(self).timeoutMs() == old(self).timeoutMs(),
            final(self).buffSize() == old(self).buffSize(),
            old(self).loopState() == LoopState::Stopped ==> *final(self) == *old(self)
                && act is Exit,
            old(self).loopState() == LoopState::Draining ==> drained_from(
                *old(self),
                *final(self),
                terminal_or_closed(*old(self)),
            ) && final(self).errState() == Some(terminal_or_closed(*old(self))) && final(self).loopState() == LoopState::Stopped && act is Exit,
            old(self).loopState() == LoopState::Running ==> (old(self).errState() matches Some(e)
                ==> drained_from(*old(self), *final(self), e) && final(self).errState() == Some(e)
                && final(self).loopState() == LoopState::Stopped && act is Exit),
            old(self).loopState() == LoopState::Running && old(self).errState() is None ==> match ev {
                NetEvent::Failure(code) => drained_from(
                    *old(self),
                    *final(self),
                    ConnError::IoError(IoFault::Os(code)),
                ) && final(self).errState() == Some(ConnError::IoError(IoFault::Os(code)))
                    && final(self).loopState() == LoopState::Stopped && act is Exit,
                NetEvent::ReadTimeout(now) => if old(self).someStale(now) {
                    drained_from(*old(self), *final(self), ConnError::IoError(IoFault::Timeout))
                        && final(self).errState() == Some(ConnError::IoError(IoFault::Timeout))
                        && final(self).loopState() == LoopState::Stopped && act is Exit
                } else {
                    *final(self) == *old(self) && act is Continue
                },
                NetEvent::Frame(f) => match parse_frame(f@) {
                    None => drained_from(*old(self), *final(self), ConnError::IoError(IoFault::Decode))
                        && final(self).errState() == Some(ConnError::IoError(IoFault::Decode))
                        && final(self).loopState() == LoopState::Stopped && act is Exit,
                    Some(p) => match p.0 {
                        MsgKind::Response => final(self).errState() is None && final(self).loopState() == LoopState::Running && act is Continue && (if old(self).ids().contains_key(p.1) {
                            final(self).ids() == old(self).ids().remove(p.1) && final(self).slots().len() == old(self).slots().len() && slot_holds_payload(
                                final(self).slots()[old(self).ids()[p.1] as int],
                                p.2,
                            ) && (forall|i: int|
                                0 <= i < old(self).slots().len() && i != old(self).ids()[p.1] as int
                                    ==> final(self).slots()[i] == old(self).slots()[i])
                        } else {
                            same_model(*old(self), *final(self))
                        }),
                        MsgKind::Request => match parse_req(p.2) {
                            Some(a) => act matches DaemonAction::Forward(fid, fargs) && *final(self) == *old(self) && fid == p.1 && views(fargs@) == a,
                            None => drained_from(
                                *old(self),
                                *final(self),
                                ConnError::IoError(IoFault::Decode),
                            ) && final(self).errState() == Some(
                                ConnError::IoError(IoFault::Decode),
                            ) && final(self).loopState() == LoopState::Stopped && act is Exit,
                        },
                    },
                },
            },
    {
        match self.loop_state {
            LoopState::Stopped => DaemonAction::Exit,
            LoopState::Draining => {
                self.drain_now();
                DaemonAction::Exit
            },
            LoopState::Running => {
                let has_err = match self.checkErrState() {
                    Err(_) => true,
                    Ok(()) => false,
                };
                if has_err {
                    self.loop_state = LoopState::Draining;
                    self.drain_now();
                    return DaemonAction::Exit;
                }
                match ev {
                    NetEvent::Failure(code) => {
                        let _ = self.setErrState(ConnError::IoError(IoFault::Os(code)));
                        self.loop_state = LoopState::Draining;
                        self.drain_now();
                        DaemonAction::Exit
                    },
                    NetEvent::ReadTimeout(now) => {
                        if self.corr.hasStale(self.timeout_ms, now) {
                            let _ = self.setErrState(ConnError::IoError(IoFault::Timeout));
                            self.loop_state = LoopState::Draining;
                            self.drain_now();
                            DaemonAction::Exit
                        } else {
                            DaemonAction::Continue
                        }
                    },
                    NetEvent::Frame(f) => {
                        match decode_frame(&f) {
                            None => {
                                let _ = self.setErrState(ConnError::IoError(IoFault::Decode));
                                self.loop_state = LoopState::Draining;
                                self.drain_now();
                                DaemonAction::Exit
                            },
                            Some((k, id, body)) => {
                                match k {
                                    MsgKind::Response => {
                                        let _hit = self.corr.resolve(id, body);
                                        DaemonAction::Continue
                                    },
                                    MsgKind::Request => {
                                        match decode_req(&body) {
                                            Some(argsv) => DaemonAction::Forward(id, argsv),
                                            None => {
                                                let _ = self.setErrState(
                                                    ConnError::IoError(IoFault::Decode),
                                                );
                                                self.loop_state = LoopState::Draining;
                                                self.drain_now();
                                                DaemonAction::Exit
                                            },
                                        }
                                    },
                                }
                            },
                        }
                    },
                }
            },
        }
    }
}

} // verus!
