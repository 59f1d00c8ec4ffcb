//! The proxy that sends bytes on as soon as it has read them and registers the
//! sockets anew after each step.
//!
//! As with the phased proxy, whoever drives it performs the socket operation
//! that an [`EagerTurn`] asks for and reports what came of it.

use vstd::prelude::*;
use slab::Slab;
use crate::address::SocketAddress;
use crate::registry::Interest;
use crate::relay::{
    bytes_in, ReadModel, ReadOutcome, Relay, RelayModel, Reply, ReplyModel, Side, WriteOutcome,
};
use crate::servers::next_in_turn;
use crate::session::ProxySession;
use crate::session_slab::{
    slab_contains, slab_entries, slab_index, slab_index_mut, slab_insert, slab_is_empty, slab_new,
    slab_remove, MAX_SESSIONS,
};

verus! {

/// What a turn waits for. `side` is the side that the event came from, `peer`
/// the other one.
#[derive(Clone, Copy, Debug, PartialEq, Eq, Structural)]
pub enum EagerStage {
    /// A read from `side`.
    Read,
    /// The shutdown of the write half of `peer`: `side` has ended its stream.
    ShutdownAtEnd,
    /// The deregistration of `side`.
    DeregisterAtEnd,
    /// The registration of `peer` for this: bytes still wait for it.
    RegisterAtEnd(Interest),
    /// A write to `peer` of the bytes that wait for it.
    Push,
    /// The shutdown of the write half of `peer`: it has got everything.
    ShutdownAfterPush,
    /// The deregistration of `peer`.
    DeregisterAfterPush,
    /// The registration of `peer` for this.
    RegisterAfterPush(Interest),
    /// A write to `side` of the bytes that wait for it.
    Flush,
    /// The shutdown of the write half of `peer`: `side` took nothing.
    ShutdownOnRefusal,
    /// The deregistration of `side`.
    DeregisterOnRefusal,
    /// The shutdown of the write half of `side`: it has got everything.
    ShutdownAfterFlush,
    /// The deregistration of `peer`.
    DeregisterAfterFlush,
    /// The registration of `side` for this.
    RegisterAfterFlush(Interest),
    /// Nothing: the turn is over.
    Over,
    /// Nothing: the turn is over, and the session has been closed.
    Closed,
}

/// The handling of one readiness event on a socket of a session.
#[derive(Clone, Copy, Debug, PartialEq, Eq, Structural)]
pub struct EagerTurn {
    pub key: usize,
    /// The side that the event came from.
    pub side: Side,
    /// Whether the event says that the socket can be written to.
    pub writable: bool,
    pub stage: EagerStage,
}

/// The reply is one to what the stage waits for.
pub open spec fn eager_fits(
    relay: RelayModel,
    side: Side,
    stage: EagerStage,
    reply: ReplyModel,
) -> bool {
    match stage {
        EagerStage::Read => reply is Read,
        EagerStage::Push | EagerStage::Flush => {
            &&& reply is Written
            &&& reply->Written_0 matches WriteOutcome::Wrote(count) ==> count <= relay.buffer_to(
                eager_target(side, stage),
            ).len()
        },
        EagerStage::Over | EagerStage::Closed => false,
        _ => reply is Done,
    }
}

/// The side that a stage writes to.
pub open spec fn eager_target(side: Side, stage: EagerStage) -> Side {
    if stage is Push {
        side.peer()
    } else {
        side
    }
}

/// The relay after a reply. A failure changes nothing. A side that takes none
/// of the bytes that it said it could take is closed.
pub open spec fn eager_relay_after(
    relay: RelayModel,
    side: Side,
    stage: EagerStage,
    reply: ReplyModel,
) -> RelayModel {
    match reply {
        ReplyModel::Read(ReadModel::Received(bytes)) => if bytes.len() == 0 {
            relay.with_closed(side)
        } else {
            relay.with_received(side, bytes)
        },
        ReplyModel::Written(WriteOutcome::Wrote(count)) => if count > 0 {
            relay.with_sent(eager_target(side, stage), count as int)
        } else if stage is Flush {
            relay.with_closed(side)
        } else {
            relay
        },
        _ => relay,
    }
}

/// What a side is registered for: always for reading, and for writing while
/// bytes wait for it.
pub open spec fn eager_interest(relay: RelayModel, side: Side) -> Interest {
    if relay.buffer_to(side).len() > 0 {
        Interest::ReadableWritable
    } else {
        Interest::Readable
    }
}

/// What both sockets of a session are registered for when it is opened: for
/// reading, as no bytes wait for either side yet.
pub fn eager_first_registration() -> (interest: Interest)
    ensures
        interest == Interest::Readable,
        forall|side: Side| interest == #[trigger] eager_interest(RelayModel::fresh(), side),
{
    Interest::Readable
}

/// Where a turn begins.
pub open spec fn eager_first_stage(
    relay: RelayModel,
    side: Side,
    readable: bool,
    writable: bool,
) -> EagerStage {
    if readable {
        EagerStage::Read
    } else {
        eager_past_reads(relay, side, writable)
    }
}

/// Where a turn goes on when there is no more to read: it writes to the side while
/// bytes wait for it.
pub open spec fn eager_past_reads(relay: RelayModel, side: Side, writable: bool) -> EagerStage {
    if writable && relay.buffer_to(side).len() > 0 {
        EagerStage::Flush
    } else {
        eager_last_stage(relay)
    }
}

/// Where a turn ends.
pub open spec fn eager_last_stage(relay: RelayModel) -> EagerStage {
    if relay.finished() {
        EagerStage::Closed
    } else {
        EagerStage::Over
    }
}

/// Where a turn goes on after a reply. `relay` is the relay as the reply has
/// left it.
pub open spec fn eager_next_stage(
    relay: RelayModel,
    side: Side,
    writable: bool,
    stage: EagerStage,
    reply: ReplyModel,
) -> EagerStage {
    let peer = side.peer();
    match stage {
        EagerStage::Read => match reply->Read_0 {
            ReadModel::Received(bytes) => if bytes.len() > 0 {
                EagerStage::Push
            } else if relay.buffer_to(peer).len() == 0 {
                EagerStage::ShutdownAtEnd
            } else {
                EagerStage::RegisterAtEnd(Interest::ReadableWritable)
            },
            _ => eager_past_reads(relay, side, writable),
        },
        EagerStage::ShutdownAtEnd => EagerStage::DeregisterAtEnd,
        EagerStage::DeregisterAtEnd | EagerStage::RegisterAtEnd(_) => eager_past_reads(
            relay,
            side,
            writable,
        ),
        EagerStage::Push => match reply->Written_0 {
            WriteOutcome::Wrote(count) => if count == 0 {
                EagerStage::RegisterAfterPush(eager_interest(relay, peer))
            } else if relay.buffer_to(peer).len() > 0 {
                EagerStage::Push
            } else if relay.closed(side) {
                EagerStage::ShutdownAfterPush
            } else {
                EagerStage::RegisterAfterPush(eager_interest(relay, peer))
            },
            _ => EagerStage::RegisterAfterPush(eager_interest(relay, peer)),
        },
        EagerStage::ShutdownAfterPush => EagerStage::DeregisterAfterPush,
        EagerStage::DeregisterAfterPush => EagerStage::RegisterAfterPush(
            eager_interest(relay, peer),
        ),
        EagerStage::RegisterAfterPush(_) => EagerStage::Read,
        EagerStage::Flush => match reply->Written_0 {
            WriteOutcome::Wrote(count) => if count == 0 {
                if relay.buffer_to(peer).len() == 0 {
                    EagerStage::ShutdownOnRefusal
                } else {
                    eager_last_stage(relay)
                }
            } else if relay.buffer_to(side).len() == 0 && relay.closed(peer) {
                EagerStage::ShutdownAfterFlush
            } else {
                EagerStage::RegisterAfterFlush(eager_interest(relay, side))
            },
            _ => eager_last_stage(relay),
        },
        EagerStage::ShutdownOnRefusal => EagerStage::DeregisterOnRefusal,
        EagerStage::DeregisterOnRefusal => eager_last_stage(relay),
        EagerStage::ShutdownAfterFlush => EagerStage::DeregisterAfterFlush,
        EagerStage::DeregisterAfterFlush | EagerStage::RegisterAfterFlush(_) => eager_past_reads(
            relay,
            side,
            writable,
        ),
        EagerStage::Over | EagerStage::Closed => stage,
    }
}

/// What an [`EagerProxy`] holds.
#[verifier::ext_equal]
pub struct EagerModel {
    pub sessions: Map<usize, RelayModel>,
    /// The server of each session.
    pub backends: Map<usize, SocketAddress>,
    pub num_connections: usize,
    pub total_throughput: usize,
    pub cursor: usize,
    pub is_shutting_down: bool,
}

impl EagerModel {
    /// Every session is counted.
    pub open spec fn consistent(self) -> bool {
        &&& self.sessions.dom().finite()
        &&& self.num_connections == self.sessions.dom().len()
        &&& forall|key: usize| #[trigger]
            self.sessions.contains_key(key) ==> key < usize::MAX / 2
    }

    /// The proxy has been shut down and its last session has ended.
    pub open spec fn done(self) -> bool {
        self.is_shutting_down && self.sessions.dom() == Set::<usize>::empty()
    }

    /// A session has been opened under `key` on a backend server.
    pub open spec fn opened(self, key: usize, backend: SocketAddress) -> EagerModel {
        EagerModel {
            sessions: self.sessions.insert(key, RelayModel::fresh()),
            backends: self.backends.insert(key, backend),
            num_connections: (self.num_connections + 1) as usize,
            ..self
        }
    }

    /// What entering a stage does.
    pub open spec fn entered(self, turn: EagerTurn) -> EagerModel {
        if turn.stage is Closed {
            EagerModel {
                sessions: self.sessions.remove(turn.key),
                backends: self.backends.remove(turn.key),
                num_connections: (self.num_connections - 1) as usize,
                ..self
            }
        } else {
            self
        }
    }

    /// The turn that a readiness event begins.
    pub open spec fn first_turn(
        self,
        key: usize,
        side: Side,
        readable: bool,
        writable: bool,
    ) -> EagerTurn {
        EagerTurn {
            key,
            side,
            writable,
            stage: eager_first_stage(self.sessions[key], side, readable, writable),
        }
    }

    /// The relay of a turn after a reply.
    pub open spec fn relay_after(self, turn: EagerTurn, reply: ReplyModel) -> RelayModel {
        eager_relay_after(self.sessions[turn.key], turn.side, turn.stage, reply)
    }

    /// The turn after a reply.
    pub open spec fn next_turn(self, turn: EagerTurn, reply: ReplyModel) -> EagerTurn {
        EagerTurn {
            stage: eager_next_stage(
                self.relay_after(turn, reply),
                turn.side,
                turn.writable,
                turn.stage,
                reply,
            ),
            ..turn
        }
    }

    /// The proxy after a reply.
    pub open spec fn resumed(self, turn: EagerTurn, reply: ReplyModel) -> EagerModel {
        EagerModel {
            sessions: self.sessions.insert(turn.key, self.relay_after(turn, reply)),
            total_throughput: self.total_throughput.wrapping_add(bytes_in(reply) as usize),
            ..self
        }.entered(self.next_turn(turn, reply))
    }
}

impl Relay {
    /// What a side is registered for.
    fn interest(&self, side: Side) -> (interest: Interest)
        ensures
            interest == eager_interest(self@, side),
    {
        if self.pending(side).is_empty() {
            Interest::Readable
        } else {
            Interest::Readable.add(Interest::Writable)
        }
    }

    /// Where an eager turn goes on when there is no more to read.
    fn past_reads(&self, side: Side, writable: bool) -> (stage: EagerStage)
        ensures
            stage == eager_past_reads(self@, side, writable),
    {
        if writable && !self.pending(side).is_empty() {
            EagerStage::Flush
        } else {
            self.turn_end()
        }
    }

    /// Where an eager turn ends.
    fn turn_end(&self) -> (stage: EagerStage)
        ensures
            stage == eager_last_stage(self@),
    {
        if self.is_finished() {
            EagerStage::Closed
        } else {
            EagerStage::Over
        }
    }

    /// Takes in what came of a read. Returns where the turn goes on and how many
    /// bytes have come in.
    fn eager_read(&mut self, side: Side, writable: bool, outcome: ReadOutcome) -> (step: (
        EagerStage,
        usize,
    ))
        ensures
            final(self)@ == eager_relay_after(
                old(self)@,
                side,
                EagerStage::Read,
                ReplyModel::Read(outcome@),
            ),
            step.0 == eager_next_stage(
                final(self)@,
                side,
                writable,
                EagerStage::Read,
                ReplyModel::Read(outcome@),
            ),
            step.1 == bytes_in(ReplyModel::Read(outcome@)),
    {
        match outcome {
            ReadOutcome::Received(bytes) => if bytes.is_empty() {
                self.close(side);
                if self.pending(side.peer()).is_empty() {
                    (EagerStage::ShutdownAtEnd, 0)
                } else {
                    let both = Interest::Readable.add(Interest::Writable);
                    (EagerStage::RegisterAtEnd(both), 0)
                }
            } else {
                self.receive(side, &bytes);
                (EagerStage::Push, bytes.len())
            },
            ReadOutcome::WouldBlock | ReadOutcome::Failed => (self.past_reads(side, writable), 0),
        }
    }

    /// Takes in what came of a write of bytes that were just read.
    fn eager_push(&mut self, side: Side, writable: bool, outcome: WriteOutcome) -> (stage:
        EagerStage)
        requires
            outcome matches WriteOutcome::Wrote(count) ==> count <= old(self)@.buffer_to(
                side.peer(),
            ).len(),
        ensures
            final(self)@ == eager_relay_after(
                old(self)@,
                side,
                EagerStage::Push,
                ReplyModel::Written(outcome),
            ),
            stage == eager_next_stage(
                final(self)@,
                side,
                writable,
                EagerStage::Push,
                ReplyModel::Written(outcome),
            ),
    {
        let peer = side.peer();
        if let WriteOutcome::Wrote(count) = outcome {
            if count > 0 {
                self.sent(peer, count);
                if !self.pending(peer).is_empty() {
                    return EagerStage::Push;
                }
                if self.is_closed(side) {
                    return EagerStage::ShutdownAfterPush;
                }
            }
        }
        EagerStage::RegisterAfterPush(self.interest(peer))
    }

    /// Takes in what came of a write to the side that the event came from.
    fn eager_flush(&mut self, side: Side, writable: bool, outcome: WriteOutcome) -> (stage:
        EagerStage)
        requires
            outcome matches WriteOutcome::Wrote(count) ==> count <= old(self)@.buffer_to(
                side,
            ).len(),
        ensures
            final(self)@ == eager_relay_after(
                old(self)@,
                side,
                EagerStage::Flush,
                ReplyModel::Written(outcome),
            ),
            stage == eager_next_stage(
                final(self)@,
                side,
                writable,
                EagerStage::Flush,
                ReplyModel::Written(outcome),
            ),
    {
        match outcome {
            WriteOutcome::Wrote(count) => if count == 0 {
                self.close(side);
                if self.pending(side.peer()).is_empty() {
                    EagerStage::ShutdownOnRefusal
                } else {
                    self.turn_end()
                }
            } else {
                self.sent(side, count);
                if self.pending(side).is_empty() && self.is_closed(side.peer()) {
                    EagerStage::ShutdownAfterFlush
                } else {
                    EagerStage::RegisterAfterFlush(self.interest(side))
                }
            },
            WriteOutcome::WouldBlock | WriteOutcome::Failed => self.turn_end(),
        }
    }

    /// Where an eager turn goes on after an operation whose outcome does not
    /// matter.
    fn eager_done(&self, side: Side, writable: bool, stage: EagerStage) -> (next: EagerStage)
        requires
            !(stage is Read || stage is Push || stage is Flush),
        ensures
            next == eager_next_stage(self@, side, writable, stage, ReplyModel::Done),
    {
        match stage {
            EagerStage::ShutdownAtEnd => EagerStage::DeregisterAtEnd,
            EagerStage::DeregisterAtEnd | EagerStage::RegisterAtEnd(_) => self.past_reads(
                side,
                writable,
            ),
            EagerStage::ShutdownAfterPush => EagerStage::DeregisterAfterPush,
            EagerStage::DeregisterAfterPush => EagerStage::RegisterAfterPush(
                self.interest(side.peer()),
            ),
            EagerStage::RegisterAfterPush(_) => EagerStage::Read,
            EagerStage::ShutdownOnRefusal => EagerStage::DeregisterOnRefusal,
            EagerStage::DeregisterOnRefusal => self.turn_end(),
            EagerStage::ShutdownAfterFlush => EagerStage::DeregisterAfterFlush,
            EagerStage::DeregisterAfterFlush | EagerStage::RegisterAfterFlush(_) => self.past_reads(
                side,
                writable,
            ),
            _ => stage,
        }
    }
}

/// What has happened at the listening socket.
#[derive(Clone, Copy, Debug, PartialEq, Eq, Structural)]
pub enum EagerAcceptEvent {
    /// The socket is ready.
    Ready,
    /// A client has been accepted.
    Accepted,
    /// A session has been opened for the client.
    Opened,
    /// No further client waits.
    WouldBlock,
    /// Accepting has failed.
    Failed,
}

/// What is to be done next at the listening socket.
#[derive(Clone, Copy, Debug, PartialEq, Eq, Structural)]
pub enum EagerAcceptAction {
    /// Accept a client. One that was accepted before without a session is dropped.
    Accept,
    /// Connect to this backend server for the client.
    Connect(SocketAddress),
    /// Wait until the socket is ready again.
    Stop,
}

/// What is to be done at the listening socket after the event. `cursor` counts the
/// servers that have been picked.
pub open spec fn eager_accept_action(
    is_shutting_down: bool,
    healthy: Seq<SocketAddress>,
    cursor: usize,
    event: EagerAcceptEvent,
) -> EagerAcceptAction {
    match event {
        EagerAcceptEvent::Ready if is_shutting_down => EagerAcceptAction::Stop,
        EagerAcceptEvent::Accepted if healthy.len() > 0 => EagerAcceptAction::Connect(
            healthy[cursor as int % healthy.len() as int],
        ),
        EagerAcceptEvent::WouldBlock => EagerAcceptAction::Stop,
        _ => EagerAcceptAction::Accept,
    }
}

/// The sessions of the proxy and what it has counted.
pub struct EagerProxy {
    sessions: Slab<ProxySession>,
    num_connections: usize,
    total_throughput: usize,
    cursor: usize,
    is_shutting_down: bool,
}

impl View for EagerProxy {
    type V = EagerModel;

    closed spec fn view(&self) -> EagerModel {
        EagerModel {
            sessions: slab_entries(self.sessions).map_values(
                |session: ProxySession| session.relay@,
            ),
            backends: slab_entries(self.sessions).map_values(
                |session: ProxySession| session.session_backend,
            ),
            num_connections: self.num_connections,
            total_throughput: self.total_throughput,
            cursor: self.cursor,
            is_shutting_down: self.is_shutting_down,
        }
    }
}

impl EagerProxy {
    /// Every session is counted.
    pub open spec fn wf(self) -> bool {
        self@.consistent()
    }

    /// A proxy with no session.
    pub fn new() -> (proxy: EagerProxy)
        ensures
            proxy.wf(),
            proxy@ == (EagerModel {
                sessions: Map::empty(),
                backends: Map::empty(),
                num_connections: 0,
                total_throughput: 0,
                cursor: 0,
                is_shutting_down: false,
            }),
    {
        let proxy = EagerProxy {
            sessions: slab_new(),
            num_connections: 0,
            total_throughput: 0,
            cursor: 0,
            is_shutting_down: false,
        };
        assert(proxy@.sessions =~= Map::empty());
        assert(proxy@.backends =~= Map::empty());
        proxy
    }

    /// No new connection is accepted from now on.
    pub fn shut_down(&mut self)
        requires
            old(self).wf(),
        ensures
            final(self).wf(),
            final(self)@ == (EagerModel { is_shutting_down: true, ..old(self)@ }),
    {
        self.is_shutting_down = true;
    }

    /// Whether the proxy has been shut down and its last session has ended.
    pub fn is_done(&self) -> (done: bool)
        ensures
            done == (self@.is_shutting_down && self@.sessions.dom() == Set::<usize>::empty()),
            done == self@.done(),
    {
        assert(self@.sessions.dom() =~= slab_entries(self.sessions).dom());
        self.is_shutting_down && slab_is_empty(&self.sessions)
    }

    /// How many sessions there are.
    pub fn num_connections(&self) -> (count: usize)
        ensures
            count == self@.num_connections,
    {
        self.num_connections
    }

    /// How many bytes have been read in all.
    pub fn total_throughput(&self) -> (count: usize)
        ensures
            count == self@.total_throughput,
    {
        self.total_throughput
    }

    /// Whether a session is stored under the key.
    pub fn contains(&self, key: usize) -> (held: bool)
        ensures
            held == self@.sessions.contains_key(key),
    {
        slab_contains(&self.sessions, key)
    }

    /// The bytes of a session that wait to be written to the side.
    pub fn pending(&self, key: usize, side: Side) -> (bytes: &Vec<u8>)
        requires
            self@.sessions.contains_key(key),
        ensures
            bytes@ == self@.sessions[key].buffer_to(side),
    {
        slab_index(&self.sessions, key).relay.pending(side)
    }

    /// Goes on at the listening socket. The healthy servers get the clients in
    /// turn. A client is dropped if there is none.
    pub fn accept_step(&mut self, healthy: &Vec<SocketAddress>, event: EagerAcceptEvent) -> (action:
        EagerAcceptAction)
        requires
            old(self).wf(),
        ensures
            final(self).wf(),
            action == (match event {
                EagerAcceptEvent::Ready => if old(self)@.is_shutting_down {
                    EagerAcceptAction::Stop
                } else {
                    EagerAcceptAction::Accept
                },
                EagerAcceptEvent::Accepted => if healthy@.len() > 0 {
                    EagerAcceptAction::Connect(
                        healthy@[old(self)@.cursor as int % healthy@.len() as int],
                    )
                } else {
                    EagerAcceptAction::Accept
                },
                EagerAcceptEvent::Opened | EagerAcceptEvent::Failed => EagerAcceptAction::Accept,
                EagerAcceptEvent::WouldBlock => EagerAcceptAction::Stop,
            }),
            action == eager_accept_action(
                old(self)@.is_shutting_down,
                healthy@,
                old(self)@.cursor,
                event,
            ),
            final(self)@ == (if action is Connect {
                EagerModel { cursor: old(self)@.cursor.wrapping_add(1), ..old(self)@ }
            } else {
                old(self)@
            }),
    {
        match event {
            EagerAcceptEvent::Ready => if self.is_shutting_down {
                EagerAcceptAction::Stop
            } else {
                EagerAcceptAction::Accept
            },
            EagerAcceptEvent::Accepted => match next_in_turn(healthy, &mut self.cursor) {
                Some(address) => EagerAcceptAction::Connect(address),
                None => EagerAcceptAction::Accept,
            },
            EagerAcceptEvent::Opened | EagerAcceptEvent::Failed => EagerAcceptAction::Accept,
            EagerAcceptEvent::WouldBlock => EagerAcceptAction::Stop,
        }
    }

    /// Opens a session on a backend server.
    pub fn open_session(&mut self, backend: SocketAddress) -> (key: usize)
        requires
            old(self).wf(),
            old(self)@.num_connections < MAX_SESSIONS,
        ensures
            final(self).wf(),
            !old(self)@.sessions.contains_key(key),
            key < usize::MAX / 2,
            final(self)@ == old(self)@.opened(key, backend),
    {
        assert(slab_entries(self.sessions).dom() =~= self@.sessions.dom());
        self.num_connections = self.num_connections + 1;
        let session = ProxySession {
            relay: Relay::new(),
            session_backend: backend,
            last_activity: 0,
            prev: None,
            next: None,
        };
        let key = slab_insert(&mut self.sessions, session);
        assert(self@.sessions =~= old(self)@.opened(key, backend).sessions);
        assert(self@.backends =~= old(self)@.opened(key, backend).backends);
        key
    }

    /// Does what entering the stage of a turn does.
    fn enter(&mut self, turn: EagerTurn)
        requires
            old(self).wf(),
            old(self)@.sessions.contains_key(turn.key),
        ensures
            final(self).wf(),
            final(self)@ == old(self)@.entered(turn),
    {
        if let EagerStage::Closed = turn.stage {
            self.num_connections = self.num_connections - 1;
            slab_remove(&mut self.sessions, turn.key);
            assert(self@.sessions =~= old(self)@.entered(turn).sessions);
            assert(self@.backends =~= old(self)@.entered(turn).backends);
        }
    }

    /// Begins to handle a readiness event on a socket of a session.
    pub fn begin_turn(&mut self, key: usize, side: Side, readable: bool, writable: bool) -> (turn:
        EagerTurn)
        requires
            old(self).wf(),
            old(self)@.sessions.contains_key(key),
        ensures
            final(self).wf(),
            turn == old(self)@.first_turn(key, side, readable, writable),
            final(self)@ == old(self)@.entered(turn),
    {
        let stage = if readable {
            EagerStage::Read
        } else {
            slab_index(&self.sessions, key).relay.past_reads(side, writable)
        };
        let turn = EagerTurn { key, side, writable, stage };
        self.enter(turn);
        turn
    }

    /// Goes on with a turn after what it waited for has been done.
    pub fn resume_turn(&mut self, turn: EagerTurn, reply: Reply) -> (next: EagerTurn)
        requires
            old(self).wf(),
            old(self)@.sessions.contains_key(turn.key),
            eager_fits(old(self)@.sessions[turn.key], turn.side, turn.stage, reply@),
        ensures
            final(self).wf(),
            next == old(self)@.next_turn(turn, reply@),
            final(self)@ == old(self)@.resumed(turn, reply@),
    {
        let session = slab_index_mut(&mut self.sessions, turn.key);
        let (stage, received) = match reply {
            Reply::Read(outcome) => session.relay.eager_read(turn.side, turn.writable, outcome),
            Reply::Written(outcome) => {
                let stage = if let EagerStage::Push = turn.stage {
                    session.relay.eager_push(turn.side, turn.writable, outcome)
                } else {
                    session.relay.eager_flush(turn.side, turn.writable, outcome)
                };
                (stage, 0)
            },
            Reply::Done => (session.relay.eager_done(turn.side, turn.writable, turn.stage), 0),
        };
        self.total_throughput = self.total_throughput.wrapping_add(received);
        let next = EagerTurn { stage, ..turn };
        proof {
            assert(self@.sessions =~= old(self)@.sessions.insert(
                turn.key,
                old(self)@.relay_after(turn, reply@),
            ));
            assert(self@.sessions.dom() =~= old(self)@.sessions.dom());
        }
        self.enter(next);
        next
    }
}

} // verus!
