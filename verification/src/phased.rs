//! The proxy that handles a readiness event in phases: first it reads all there
//! is, then it writes all it can, then it registers the sockets for what they
//! still need or closes the session.
//!
//! The proxy decides and keeps the books. Whoever drives it performs the socket
//! operation that a [`Turn`] asks for and reports what came of it.

use vstd::prelude::*;
use slab::Slab;
use crate::address::SocketAddress;
use crate::recency::{
    law_move_changes_only_links_nearby, law_move_puts_behind_the_others,
    law_removal_changes_only_neighbours, law_removal_leaves_the_others, lemma_append,
    lemma_neighbours, lemma_without, linked, links_at, move_to_tail, moved_to_tail,
    remove_from_list, without,
};
use crate::relay::{
    bytes_in, ReadModel, ReadOutcome, Relay, RelayModel, Reply, ReplyModel, Side, WriteOutcome,
};
use crate::servers::{least_loaded, with_session_begun, with_session_ended, ServerTable};
use crate::session::{ProxySession, SessionModel};
use crate::session_slab::{
    slab_contains, slab_entries, slab_index, slab_index_mut, slab_insert, slab_is_empty, slab_new,
    slab_remove, MAX_SESSIONS,
};
use crate::turns::{
    law_events_leave_sockets_watched, law_readable_sides_are_read,
    law_replies_leave_sockets_watched,
};

verus! {

/// A session that has been idle for longer than this many nanoseconds is closed.
pub const IDLE_TIMEOUT: u64 = 30_000_000_000;

/// What a socket still needs to be watched for.
#[derive(Clone, Copy, Debug, PartialEq, Eq, Structural)]
pub struct Needs {
    pub read: bool,
    pub write: bool,
}

/// What a turn waits for.
#[derive(Clone, Copy, Debug, PartialEq, Eq, Structural)]
pub enum Stage {
    /// A read from the side that the event came from.
    Read,
    /// The shutdown of the write half of the other side.
    ShutdownAfterRead,
    /// A write to the server of the bytes that wait for it.
    WriteServer,
    /// The shutdown of the write half of the server.
    ShutdownServer,
    /// A write to the client of the bytes that wait for it.
    WriteClient,
    /// The shutdown of the write half of the client.
    ShutdownClient,
    /// Nothing: the turn is over, and the sockets are to be registered for this.
    Register { client: Needs, server: Needs },
    /// Nothing: the turn is over, and the session has been closed.
    Closed { backend: SocketAddress },
}

/// The handling of one readiness event on a socket of a session.
#[derive(Clone, Copy, Debug, PartialEq, Eq, Structural)]
pub struct Turn {
    pub key: usize,
    /// The side that the event came from.
    pub side: Side,
    /// Whether bytes or an end of stream have passed in this turn.
    pub active: bool,
    pub stage: Stage,
}

/// The relay after an attempt to read from a side. An end of stream and a
/// failure both close the side.
pub open spec fn relay_after_read(relay: RelayModel, from: Side, outcome: ReadModel) -> RelayModel {
    match outcome {
        ReadModel::Received(bytes) => if bytes.len() == 0 {
            relay.with_closed(from)
        } else {
            relay.with_received(from, bytes)
        },
        ReadModel::WouldBlock => relay,
        ReadModel::Failed => relay.with_closed(from),
    }
}

/// The relay after an attempt to write to a side. A failure closes the side and
/// gives up what waited for it.
pub open spec fn relay_after_write(
    relay: RelayModel,
    to: Side,
    outcome: WriteOutcome,
) -> RelayModel {
    match outcome {
        WriteOutcome::Wrote(count) => relay.with_sent(to, count as int),
        WriteOutcome::WouldBlock => relay,
        WriteOutcome::Failed => relay.with_closed(to).with_buffer(to, Seq::empty()),
    }
}

/// The side that a stage writes to.
pub open spec fn target(stage: Stage) -> Option<Side> {
    match stage {
        Stage::WriteServer => Some(Side::Server),
        Stage::WriteClient => Some(Side::Client),
        _ => None,
    }
}

/// The reply is one to what the stage waits for.
pub open spec fn fits(relay: RelayModel, stage: Stage, reply: ReplyModel) -> bool {
    match stage {
        Stage::Read => reply is Read,
        Stage::WriteServer | Stage::WriteClient => {
            &&& reply is Written
            &&& reply->Written_0 matches WriteOutcome::Wrote(count) ==> count
                <= relay.buffer_to(target(stage).unwrap()).len()
        },
        Stage::ShutdownAfterRead | Stage::ShutdownServer | Stage::ShutdownClient => reply
            is Done,
        Stage::Register { .. } | Stage::Closed { .. } => false,
    }
}

/// The relay after a reply.
pub open spec fn relay_after(
    relay: RelayModel,
    side: Side,
    stage: Stage,
    reply: ReplyModel,
) -> RelayModel {
    match reply {
        ReplyModel::Read(outcome) => relay_after_read(relay, side, outcome),
        ReplyModel::Written(outcome) => relay_after_write(relay, target(stage).unwrap(), outcome),
        ReplyModel::Done => relay,
    }
}

/// Whether bytes or an end of stream have passed.
pub open spec fn is_activity(reply: ReplyModel) -> bool {
    match reply {
        ReplyModel::Read(outcome) => outcome is Received,
        ReplyModel::Written(outcome) => outcome is Wrote,
        ReplyModel::Done => false,
    }
}

/// Where a turn begins.
pub open spec fn first_stage(session: SessionModel, side: Side, readable: bool) -> Stage {
    if readable && !session.relay.closed(side) {
        Stage::Read
    } else {
        stage_past_reads(session)
    }
}

/// Where a turn goes on when there is no more to read.
pub open spec fn stage_past_reads(session: SessionModel) -> Stage {
    if session.relay.server_buffer.len() > 0 {
        Stage::WriteServer
    } else {
        stage_past_server(session)
    }
}

/// Where a turn goes on when the server takes no more.
pub open spec fn stage_past_server(session: SessionModel) -> Stage {
    if session.relay.client_buffer.len() > 0 {
        Stage::WriteClient
    } else {
        last_stage(session)
    }
}

/// Where a turn ends. Each socket is watched for reading until its side has
/// closed, and for writing while bytes wait for it. The session is closed once
/// neither is watched for anything.
pub open spec fn last_stage(session: SessionModel) -> Stage {
    let relay = session.relay;
    if relay.finished() {
        Stage::Closed { backend: session.session_backend }
    } else {
        Stage::Register {
            client: Needs { read: !relay.client_closed, write: relay.client_buffer.len() > 0 },
            server: Needs { read: !relay.server_closed, write: relay.server_buffer.len() > 0 },
        }
    }
}

/// What the sockets of a session are registered for when it is opened: both for
/// reading.
pub open spec fn opened_stage() -> Stage {
    let watched = Needs { read: true, write: false };
    Stage::Register { client: watched, server: watched }
}

/// What the sockets of a session are to be registered for when it is opened.
/// This is where a turn would end before anything has passed.
pub fn first_registration() -> (stage: Stage)
    ensures
        stage == opened_stage(),
        stage == (Stage::Register {
            client: Needs { read: true, write: false },
            server: Needs { read: true, write: false },
        }),
        forall|session: SessionModel|
            session.relay == RelayModel::fresh() ==> stage == #[trigger] last_stage(session),
{
    let watched = Needs { read: true, write: false };
    Stage::Register { client: watched, server: watched }
}

/// Where a turn goes on after a reply. `session` is the session as the reply
/// has left it.
pub open spec fn next_stage(
    session: SessionModel,
    side: Side,
    stage: Stage,
    reply: ReplyModel,
) -> Stage {
    match stage {
        Stage::Read => match reply->Read_0 {
            ReadModel::Received(bytes) => if bytes.len() > 0 {
                Stage::Read
            } else if session.relay.buffer_to(side.peer()).len() == 0 {
                Stage::ShutdownAfterRead
            } else {
                stage_past_reads(session)
            },
            ReadModel::WouldBlock => stage_past_reads(session),
            ReadModel::Failed => Stage::ShutdownAfterRead,
        },
        Stage::ShutdownAfterRead => stage_past_reads(session),
        Stage::WriteServer => match reply->Written_0 {
            WriteOutcome::Wrote(_) => if session.relay.server_buffer.len() > 0 {
                Stage::WriteServer
            } else if session.relay.client_closed {
                Stage::ShutdownServer
            } else {
                stage_past_server(session)
            },
            _ => stage_past_server(session),
        },
        Stage::ShutdownServer => stage_past_server(session),
        Stage::WriteClient => match reply->Written_0 {
            WriteOutcome::Wrote(_) => if session.relay.client_buffer.len() > 0 {
                Stage::WriteClient
            } else if session.relay.server_closed {
                Stage::ShutdownClient
            } else {
                last_stage(session)
            },
            _ => last_stage(session),
        },
        Stage::ShutdownClient => last_stage(session),
        Stage::Register { .. } | Stage::Closed { .. } => stage,
    }
}

/// The phase that a stage belongs to: reading, writing to the server, writing to
/// the client, and registering or closing.
pub open spec fn phase(stage: Stage) -> nat {
    match stage {
        Stage::Read | Stage::ShutdownAfterRead => 0,
        Stage::WriteServer | Stage::ShutdownServer => 1,
        Stage::WriteClient | Stage::ShutdownClient => 2,
        Stage::Register { .. } | Stage::Closed { .. } => 3,
    }
}

/// A turn goes through its phases in order. It reads until there is no more to
/// read, and writes to a side until nothing waits for it or it takes no more.
pub proof fn law_phases_come_in_order(
    session: SessionModel,
    side: Side,
    stage: Stage,
    reply: ReplyModel,
)
    requires
        fits(session.relay, stage, reply),
    ensures
        ({
            let after = SessionModel {
                relay: relay_after(session.relay, side, stage, reply),
                ..session
            };
            let next = next_stage(after, side, stage, reply);
            &&& phase(next) >= phase(stage)
            &&& stage is Read && !(next is Read) ==> bytes_in(reply) == 0
            &&& target(stage) is Some && phase(next) > phase(stage) ==> after.relay.buffer_to(
                target(stage).unwrap(),
            ).len() == 0 || reply == ReplyModel::Written(WriteOutcome::WouldBlock)
        }),
{
}

/// What a [`Proxy`] holds.
#[verifier::ext_equal]
pub struct ProxyModel {
    pub sessions: Map<usize, SessionModel>,
    /// The keys of the sessions, the one that was active longest ago first.
    pub order: Seq<usize>,
    pub num_connections: usize,
    pub total_throughput: usize,
    pub is_shutting_down: bool,
}

impl ProxyModel {
    /// Every session stands in the order once, and is counted.
    pub open spec fn consistent(self) -> bool {
        &&& self.order.no_duplicates()
        &&& forall|key: usize|
            #[trigger] self.sessions.contains_key(key) <==> self.order.contains(key)
        &&& self.num_connections == self.order.len()
        &&& forall|key: usize| #[trigger]
            self.sessions.contains_key(key) ==> key < usize::MAX / 2
    }

    /// A session has been opened under `key`.
    pub open spec fn opened(self, key: usize, backend: SocketAddress, now: u64) -> ProxyModel {
        ProxyModel {
            sessions: self.sessions.insert(
                key,
                SessionModel {
                    relay: RelayModel::fresh(),
                    session_backend: backend,
                    last_activity: now,
                },
            ),
            order: self.order.push(key),
            num_connections: (self.num_connections + 1) as usize,
            ..self
        }
    }

    /// The session has been closed.
    pub open spec fn closed(self, key: usize) -> ProxyModel {
        ProxyModel {
            sessions: self.sessions.remove(key),
            order: without(self.order, key),
            num_connections: (self.num_connections - 1) as usize,
            ..self
        }
    }

    /// What entering a stage does.
    pub open spec fn entered(self, turn: Turn) -> ProxyModel {
        match turn.stage {
            Stage::Closed { .. } => self.closed(turn.key),
            Stage::Register { .. } => if turn.active {
                ProxyModel { order: moved_to_tail(self.order, turn.key), ..self }
            } else {
                self
            },
            _ => self,
        }
    }

    /// The turn that a readiness event begins.
    pub open spec fn first_turn(self, key: usize, side: Side, readable: bool) -> Turn {
        Turn {
            key,
            side,
            active: false,
            stage: first_stage(self.sessions[key], side, readable),
        }
    }

    /// The session of a turn after a reply.
    pub open spec fn session_after(self, turn: Turn, reply: ReplyModel, now: u64) -> SessionModel {
        let session = self.sessions[turn.key];
        SessionModel {
            relay: relay_after(session.relay, turn.side, turn.stage, reply),
            last_activity: if is_activity(reply) {
                now
            } else {
                session.last_activity
            },
            ..session
        }
    }

    /// The turn after a reply.
    pub open spec fn next_turn(self, turn: Turn, reply: ReplyModel, now: u64) -> Turn {
        Turn {
            active: turn.active || is_activity(reply),
            stage: next_stage(
                self.session_after(turn, reply, now),
                turn.side,
                turn.stage,
                reply,
            ),
            ..turn
        }
    }

    /// The proxy once it has taken in a reply.
    pub open spec fn replied(self, turn: Turn, reply: ReplyModel, now: u64) -> ProxyModel {
        ProxyModel {
            sessions: self.sessions.insert(turn.key, self.session_after(turn, reply, now)),
            total_throughput: self.total_throughput.wrapping_add(bytes_in(reply) as usize),
            ..self
        }
    }

    /// The proxy once it has taken in a reply and gone on with the turn.
    pub open spec fn resumed(self, turn: Turn, reply: ReplyModel, now: u64) -> ProxyModel {
        self.replied(turn, reply, now).entered(self.next_turn(turn, reply, now))
    }

    /// The proxy has been shut down and its last session has ended.
    pub open spec fn done(self) -> bool {
        self.is_shutting_down && self.sessions.dom() == Set::<usize>::empty()
    }

    /// The session has been idle for longer than the timeout.
    pub open spec fn idle(self, key: usize, now: u64) -> bool {
        now - self.sessions[key].last_activity > IDLE_TIMEOUT
    }
}

/// The number of connections is that of the sessions.
pub proof fn law_connections_are_sessions(proxy: ProxyModel)
    requires
        proxy.consistent(),
    ensures
        proxy.sessions.dom().finite(),
        proxy.num_connections == proxy.sessions.dom().len(),
{
    let keys = proxy.order.to_set();
    vstd::seq_lib::seq_to_set_is_finite(proxy.order);
    assert(proxy.sessions.dom() =~= keys) by {
        assert forall|key: usize| proxy.sessions.dom().contains(key) <==> keys.contains(key) by {
            assert(proxy.sessions.contains_key(key) <==> proxy.order.contains(key));
        }
    }
    proxy.order.unique_seq_to_set();
}

/// If the turn is over and its session open, each socket is registered for
/// reading just when its side has not closed, and for writing just when bytes
/// wait for it.
pub open spec fn watched_as_needed(proxy: ProxyModel, turn: Turn) -> bool {
    turn.stage matches Stage::Register { client, server } ==> {
        let relay = proxy.sessions[turn.key].relay;
        &&& client.read <==> !relay.client_closed
        &&& client.write <==> relay.client_buffer.len() > 0
        &&& server.read <==> !relay.server_closed
        &&& server.write <==> relay.server_buffer.len() > 0
    }
}

/// The session counts of the servers after a turn has come to a stage.
pub open spec fn table_entered(
    table: Map<SocketAddress, usize>,
    stage: Stage,
) -> Map<SocketAddress, usize> {
    match stage {
        Stage::Closed { backend } => with_session_ended(table, backend),
        _ => table,
    }
}

pub(crate) proof fn lemma_moved_holds_same(order: Seq<usize>, key: usize)
    requires
        order.no_duplicates(),
        order.contains(key),
    ensures
        moved_to_tail(order, key).len() == order.len(),
        forall|k: usize| #[trigger] moved_to_tail(order, key).contains(k) <==> order.contains(k),
{
    lemma_without(order, key);
    let rest = without(order, key);
    let moved = rest.push(key);
    assert forall|k: usize| #[trigger] moved.contains(k) <==> order.contains(k) by {
        if order.contains(k) {
            if k == key {
                assert(moved[rest.len() as int] == k);
            } else {
                assert(rest.contains(k));
                assert(moved[rest.index_of(k)] == k);
            }
        }
        if moved.contains(k) {
            let j = moved.index_of(k);
            if j < rest.len() {
                assert(rest[j] == k);
                assert(rest.contains(k));
            }
        }
    }
}

impl ProxySession {
    /// Where a turn goes on when there is no more to read.
    fn past_reads(&self) -> (stage: Stage)
        ensures
            stage == stage_past_reads(self@),
    {
        if !self.relay.server_buffer.is_empty() {
            Stage::WriteServer
        } else {
            self.past_server()
        }
    }

    /// Where a turn goes on when the server takes no more.
    fn past_server(&self) -> (stage: Stage)
        ensures
            stage == stage_past_server(self@),
    {
        if !self.relay.client_buffer.is_empty() {
            Stage::WriteClient
        } else {
            self.past_client()
        }
    }

    /// Where a turn ends.
    fn past_client(&self) -> (stage: Stage)
        ensures
            stage == last_stage(self@),
            stage is Closed || stage is Register,
            stage is Closed <==> self.relay.client_closed && self.relay.server_closed
                && self.relay.client_buffer@.len() == 0 && self.relay.server_buffer@.len() == 0,
            stage matches Stage::Closed { backend } ==> backend == self.session_backend,
            stage matches Stage::Register { client, server } ==> {
                &&& client.read <==> !self.relay.client_closed
                &&& client.write <==> self.relay.client_buffer@.len() > 0
                &&& server.read <==> !self.relay.server_closed
                &&& server.write <==> self.relay.server_buffer@.len() > 0
            },
    {
        let client_needs_read = !self.relay.client_closed;
        let client_needs_write = !self.relay.client_buffer.is_empty();
        let server_needs_read = !self.relay.server_closed;
        let server_needs_write = !self.relay.server_buffer.is_empty();
        if !client_needs_read && !client_needs_write && !server_needs_read && !server_needs_write {
            Stage::Closed { backend: self.session_backend }
        } else {
            Stage::Register {
                client: Needs { read: client_needs_read, write: client_needs_write },
                server: Needs { read: server_needs_read, write: server_needs_write },
            }
        }
    }

    /// Takes in a reply. Returns where the turn goes on, whether bytes or an end
    /// of stream have passed, and how many bytes have come in.
    fn advance(&mut self, side: Side, stage: Stage, reply: Reply, now: u64) -> (step: (
        Stage,
        bool,
        usize,
    ))
        requires
            fits(old(self)@.relay, stage, reply@),
        ensures
            final(self).prev == old(self).prev,
            final(self).next == old(self).next,
            final(self)@ == (SessionModel {
                relay: relay_after(old(self)@.relay, side, stage, reply@),
                last_activity: if is_activity(reply@) {
                    now
                } else {
                    old(self)@.last_activity
                },
                ..old(self)@
            }),
            step.0 == next_stage(final(self)@, side, stage, reply@),
            step.1 == is_activity(reply@),
            step.2 == bytes_in(reply@),
    {
        match reply {
            Reply::Read(outcome) => self.after_read(side, outcome, now),
            Reply::Written(outcome) => {
                let to = if let Stage::WriteServer = stage {
                    Side::Server
                } else {
                    Side::Client
                };
                let (next, active) = self.after_write(to, outcome, now);
                (next, active, 0)
            },
            Reply::Done => {
                let next = match stage {
                    Stage::ShutdownAfterRead => self.past_reads(),
                    Stage::ShutdownServer => self.past_server(),
                    _ => self.past_client(),
                };
                (next, false, 0)
            },
        }
    }

    /// Takes in what came of a read.
    fn after_read(&mut self, from: Side, outcome: ReadOutcome, now: u64) -> (step: (
        Stage,
        bool,
        usize,
    ))
        ensures
            final(self).prev == old(self).prev,
            final(self).next == old(self).next,
            final(self)@ == (SessionModel {
                relay: relay_after_read(old(self)@.relay, from, outcome@),
                last_activity: if outcome@ is Received {
                    now
                } else {
                    old(self)@.last_activity
                },
                ..old(self)@
            }),
            step.0 == next_stage(final(self)@, from, Stage::Read, ReplyModel::Read(outcome@)),
            step.1 == (outcome@ is Received),
            step.2 == bytes_in(ReplyModel::Read(outcome@)),
    {
        match outcome {
            ReadOutcome::Received(bytes) => {
                self.last_activity = now;
                if bytes.is_empty() {
                    self.relay.close(from);
                    if self.relay.pending(from.peer()).is_empty() {
                        (Stage::ShutdownAfterRead, true, 0)
                    } else {
                        (self.past_reads(), true, 0)
                    }
                } else {
                    self.relay.receive(from, &bytes);
                    (Stage::Read, true, bytes.len())
                }
            },
            ReadOutcome::WouldBlock => (self.past_reads(), false, 0),
            ReadOutcome::Failed => {
                self.relay.close(from);
                (Stage::ShutdownAfterRead, false, 0)
            },
        }
    }

    /// Takes in what came of a write.
    fn after_write(&mut self, to: Side, outcome: WriteOutcome, now: u64) -> (step: (Stage, bool))
        requires
            outcome matches WriteOutcome::Wrote(count) ==> count <= old(self)@.relay.buffer_to(
                to,
            ).len(),
        ensures
            final(self).prev == old(self).prev,
            final(self).next == old(self).next,
            final(self)@ == (SessionModel {
                relay: relay_after_write(old(self)@.relay, to, outcome),
                last_activity: if outcome is Wrote {
                    now
                } else {
                    old(self)@.last_activity
                },
                ..old(self)@
            }),
            step.0 == next_stage(
                final(self)@,
                to,
                if to == Side::Server {
                    Stage::WriteServer
                } else {
                    Stage::WriteClient
                },
                ReplyModel::Written(outcome),
            ),
            step.1 == (outcome is Wrote),
    {
        match outcome {
            WriteOutcome::Wrote(count) => {
                self.relay.sent(to, count);
                self.last_activity = now;
                if !self.relay.pending(to).is_empty() {
                    return match to {
                        Side::Server => (Stage::WriteServer, true),
                        Side::Client => (Stage::WriteClient, true),
                    };
                }
                if self.relay.is_closed(to.peer()) {
                    return match to {
                        Side::Server => (Stage::ShutdownServer, true),
                        Side::Client => (Stage::ShutdownClient, true),
                    };
                }
            },
            WriteOutcome::WouldBlock => {},
            WriteOutcome::Failed => {
                self.relay.close(to);
                self.relay.discard(to);
            },
        }
        let next = match to {
            Side::Server => self.past_server(),
            Side::Client => self.past_client(),
        };
        (next, matches!(outcome, WriteOutcome::Wrote(_)))
    }
}

/// What has happened at the listening socket.
#[derive(Clone, Copy, Debug, PartialEq, Eq, Structural)]
pub enum AcceptEvent {
    /// The socket is ready.
    Ready,
    /// A client has been accepted.
    Accepted,
    /// The backend server could not be connected to.
    ConnectFailed,
    /// A session has been opened for the client.
    Opened,
    /// No further client waits.
    WouldBlock,
    /// Accepting has failed.
    Failed,
}

/// What is to be done next at the listening socket.
#[derive(Clone, Copy, Debug, PartialEq, Eq, Structural)]
pub enum AcceptAction {
    /// Accept a client. One that was accepted before without a session is dropped.
    Accept,
    /// Connect to this backend server for the client.
    Connect(SocketAddress),
    /// Wait until the socket is ready again.
    Stop,
}

/// The action is one to take at the listening socket after the event.
pub open spec fn accept_follows(
    is_shutting_down: bool,
    table: Map<SocketAddress, usize>,
    healthy: Seq<SocketAddress>,
    event: AcceptEvent,
    action: AcceptAction,
) -> bool {
    match event {
        AcceptEvent::Ready => action == (if is_shutting_down {
            AcceptAction::Stop
        } else {
            AcceptAction::Accept
        }),
        AcceptEvent::Accepted => match action {
            AcceptAction::Connect(address) => exists|i: int|
                #[trigger] least_loaded(table, healthy, i) && healthy[i] == address,
            AcceptAction::Accept => healthy.len() == 0,
            AcceptAction::Stop => false,
        },
        AcceptEvent::ConnectFailed | AcceptEvent::Opened => action == AcceptAction::Accept,
        AcceptEvent::WouldBlock | AcceptEvent::Failed => action == AcceptAction::Stop,
    }
}

/// The sessions of the proxy and what it has counted.
pub struct Proxy {
    sessions: Slab<ProxySession>,
    list_head: Option<usize>,
    list_tail: Option<usize>,
    num_connections: usize,
    total_throughput: usize,
    is_shutting_down: bool,
    order: Ghost<Seq<usize>>,
}

impl View for Proxy {
    type V = ProxyModel;

    closed spec fn view(&self) -> ProxyModel {
        ProxyModel {
            sessions: slab_entries(self.sessions).map_values(|session: ProxySession| session@),
            order: self.order@,
            num_connections: self.num_connections,
            total_throughput: self.total_throughput,
            is_shutting_down: self.is_shutting_down,
        }
    }
}

impl Proxy {
    /// The sessions are linked in order and counted.
    pub closed spec fn wf(self) -> bool {
        &&& linked(slab_entries(self.sessions), self.list_head, self.list_tail, self.order@)
        &&& self@.consistent()
    }

    /// What holds of every proxy.
    pub proof fn lemma_wf(self)
        requires
            self.wf(),
        ensures
            self@.consistent(),
    {
    }

    /// A proxy with no session.
    pub fn new() -> (proxy: Proxy)
        ensures
            proxy.wf(),
            proxy@ == (ProxyModel {
                sessions: Map::empty(),
                order: Seq::empty(),
                num_connections: 0,
                total_throughput: 0,
                is_shutting_down: false,
            }),
    {
        let proxy = Proxy {
            sessions: slab_new(),
            list_head: None,
            list_tail: None,
            num_connections: 0,
            total_throughput: 0,
            is_shutting_down: false,
            order: Ghost(Seq::empty()),
        };
        assert(proxy@.sessions =~= Map::empty());
        proxy
    }

    /// No new connection is accepted from now on.
    pub fn shut_down(&mut self)
        requires
            old(self).wf(),
        ensures
            final(self).wf(),
            final(self)@ == (ProxyModel { is_shutting_down: true, ..old(self)@ }),
    {
        self.is_shutting_down = true;
    }

    /// Whether the proxy has been shut down and its last session has ended.
    pub fn is_done(&self) -> (done: bool)
        requires
            self.wf(),
        ensures
            done == (self@.is_shutting_down && self@.sessions.dom() == Set::<usize>::empty()),
            done == self@.done(),
    {
        assert(self@.sessions.dom() =~= slab_entries(self.sessions).dom());
        self.is_shutting_down && slab_is_empty(&self.sessions)
    }

    /// How many sessions there are.
    pub fn num_connections(&self) -> (count: usize)
        ensures
            count == self@.num_connections,
    {
        self.num_connections
    }

    /// How many bytes have been read in all.
    pub fn total_throughput(&self) -> (count: usize)
        ensures
            count == self@.total_throughput,
    {
        self.total_throughput
    }

    /// Whether a session is stored under the key.
    pub fn contains(&self, key: usize) -> (held: bool)
        ensures
            held == self@.sessions.contains_key(key),
    {
        slab_contains(&self.sessions, key)
    }

    /// The bytes of a session that wait to be written to the side.
    pub fn pending(&self, key: usize, side: Side) -> (bytes: &Vec<u8>)
        requires
            self@.sessions.contains_key(key),
        ensures
            bytes@ == self@.sessions[key].relay.buffer_to(side),
    {
        slab_index(&self.sessions, key).relay.pending(side)
    }

    /// Opens a session on a backend server, behind all others in the order.
    pub fn open_session(
        &mut self,
        table: &mut ServerTable,
        backend: SocketAddress,
        now: u64,
    ) -> (key: usize)
        requires
            old(self).wf(),
            old(table).wf(),
            old(table)@.contains_key(backend),
            old(self)@.num_connections < MAX_SESSIONS,
        ensures
            final(self).wf(),
            final(table).wf(),
            !old(self)@.sessions.contains_key(key),
            key < usize::MAX / 2,
            final(self)@ == old(self)@.opened(key, backend, now),
            final(table)@ == with_session_begun(old(table)@, backend),
    {
        proof {
            law_connections_are_sessions(self@);
            assert(slab_entries(self.sessions).dom() =~= self@.sessions.dom());
        }
        self.num_connections = self.num_connections + 1;
        table.begin_session(backend);
        let session = ProxySession {
            relay: Relay::new(),
            session_backend: backend,
            last_activity: now,
            prev: self.list_tail,
            next: None,
        };
        let ghost e0 = slab_entries(self.sessions);
        let key = slab_insert(&mut self.sessions, session);
        proof {
            if self.order@.len() > 0 {
                assert(links_at(e0, self.order@, self.order@.len() - 1));
            }
        }
        if let Some(tail) = self.list_tail {
            slab_index_mut(&mut self.sessions, tail).next = Some(key);
        }
        proof {
            assert(!old(self)@.sessions.contains_key(key));
            lemma_append(
                e0,
                slab_entries(self.sessions),
                self.list_head,
                self.list_tail,
                self.order@,
                key,
            );
        }
        self.list_tail = Some(key);
        if self.list_head.is_none() {
            self.list_head = Some(key);
        }
        self.order = Ghost(self.order@.push(key));
        proof {
            let longer = self.order@;
            assert forall|k: usize|
                longer.contains(k) <==> (old(self).order@.contains(k) || k == key) by {
                if old(self).order@.contains(k) {
                    assert(longer[old(self).order@.index_of(k)] == k);
                }
                if k == key {
                    assert(longer[longer.len() - 1] == k);
                }
            }
            assert(self@.sessions =~= old(self)@.opened(key, backend, now).sessions);
        }
        key
    }

    /// Closes a session.
    fn close_session(&mut self, table: &mut ServerTable, key: usize) -> (backend: SocketAddress)
        requires
            old(self).wf(),
            old(table).wf(),
            old(self)@.sessions.contains_key(key),
        ensures
            final(self).wf(),
            final(table).wf(),
            backend == old(self)@.sessions[key].session_backend,
            final(self)@ == old(self)@.closed(key),
            final(table)@ == with_session_ended(old(table)@, backend),
    {
        proof {
            assert(self.order@.contains(key));
            lemma_without(self.order@, key);
            let e0 = slab_entries(self.sessions);
            lemma_neighbours(e0, self.list_head, self.list_tail, self.order@, key);
            law_removal_changes_only_neighbours(e0, key);
            law_removal_leaves_the_others(
                e0,
                self.list_head,
                self.list_tail,
                self.order@,
                key,
            );
        }
        remove_from_list(&mut self.sessions, &mut self.list_head, &mut self.list_tail, key);
        self.num_connections = self.num_connections - 1;
        let backend = slab_index(&self.sessions, key).session_backend;
        table.end_session(backend);
        let ghost e1 = slab_entries(self.sessions);
        slab_remove(&mut self.sessions, key);
        self.order = Ghost(without(self.order@, key));
        proof {
            let e2 = slab_entries(self.sessions);
            assert forall|i: int| 0 <= i < self.order@.len() implies #[trigger] links_at(
                e2,
                self.order@,
                i,
            ) by {
                assert(links_at(e1, self.order@, i));
                assert(self.order@.contains(self.order@[i]));
            }
            assert(self@.sessions =~= old(self)@.closed(key).sessions);
        }
        backend
    }

    /// Does what entering the stage of a turn does.
    fn enter(&mut self, table: &mut ServerTable, turn: Turn)
        requires
            old(self).wf(),
            old(table).wf(),
            old(self)@.sessions.contains_key(turn.key),
            turn.stage matches Stage::Closed { backend } ==> backend
                == old(self)@.sessions[turn.key].session_backend,
        ensures
            final(self).wf(),
            final(table).wf(),
            final(self)@ == old(self)@.entered(turn),
            final(table)@ == table_entered(old(table)@, turn.stage),
    {
        match turn.stage {
            Stage::Closed { .. } => {
                self.close_session(table, turn.key);
            },
            Stage::Register { .. } => {
                if turn.active {
                    proof {
                        assert(self.order@.contains(turn.key));
                        lemma_without(self.order@, turn.key);
                        let e0 = slab_entries(self.sessions);
                        lemma_neighbours(
                            e0,
                            self.list_head,
                            self.list_tail,
                            self.order@,
                            turn.key,
                        );
                        law_move_changes_only_links_nearby(e0, self.list_tail, turn.key);
                        law_move_puts_behind_the_others(
                            e0,
                            self.list_head,
                            self.list_tail,
                            self.order@,
                            turn.key,
                        );
                    }
                    move_to_tail(
                        &mut self.sessions,
                        &mut self.list_head,
                        &mut self.list_tail,
                        turn.key,
                    );
                    self.order = Ghost(moved_to_tail(self.order@, turn.key));
                    proof {
                        lemma_moved_holds_same(old(self).order@, turn.key);
                        assert(self@.sessions =~= old(self)@.sessions);
                    }
                }
            },
            _ => {},
        }
    }

    /// Begins to handle a readiness event on a socket of a session. `None` if
    /// there is no such session.
    pub fn begin_turn(
        &mut self,
        table: &mut ServerTable,
        key: usize,
        side: Side,
        readable: bool,
    ) -> (turn: Option<Turn>)
        requires
            old(self).wf(),
            old(table).wf(),
        ensures
            final(self).wf(),
            final(table).wf(),
            turn == (if old(self)@.sessions.contains_key(key) {
                Some(old(self)@.first_turn(key, side, readable))
            } else {
                None
            }),
            final(self)@ == (match turn {
                Some(turn) => old(self)@.entered(turn),
                None => old(self)@,
            }),
            final(table)@ == (match turn {
                Some(turn) => table_entered(old(table)@, turn.stage),
                None => old(table)@,
            }),
            turn matches Some(turn) ==> (turn.stage is Read <==> readable && match side {
                Side::Client => !old(self)@.sessions[key].relay.client_closed,
                Side::Server => !old(self)@.sessions[key].relay.server_closed,
            }),
            turn matches Some(turn) ==> watched_as_needed(final(self)@, turn),
    {
        if !slab_contains(&self.sessions, key) {
            return None;
        }
        let session = slab_index(&self.sessions, key);
        let stage = if readable && !session.relay.is_closed(side) {
            Stage::Read
        } else {
            session.past_reads()
        };
        let turn = Turn { key, side, active: false, stage };
        proof {
            law_readable_sides_are_read(self@, key, side, readable);
            law_events_leave_sockets_watched(self@, key, side, readable);
        }
        self.enter(table, turn);
        Some(turn)
    }

    /// Goes on with a turn after what it waited for has been done.
    pub fn resume_turn(
        &mut self,
        table: &mut ServerTable,
        turn: Turn,
        reply: Reply,
        now: u64,
    ) -> (next: Turn)
        requires
            old(self).wf(),
            old(table).wf(),
            old(self)@.sessions.contains_key(turn.key),
            fits(old(self)@.sessions[turn.key].relay, turn.stage, reply@),
        ensures
            final(self).wf(),
            final(table).wf(),
            next == old(self)@.next_turn(turn, reply@, now),
            final(self)@ == old(self)@.resumed(turn, reply@, now),
            final(table)@ == table_entered(old(table)@, next.stage),
            watched_as_needed(final(self)@, next),
    {
        proof {
            law_replies_leave_sockets_watched(self@, turn, reply@, now);
        }
        let ghost e0 = slab_entries(self.sessions);
        let session = slab_index_mut(&mut self.sessions, turn.key);
        let (stage, active, received) = session.advance(turn.side, turn.stage, reply, now);
        self.total_throughput = self.total_throughput.wrapping_add(received);
        let next = Turn { active: turn.active || active, stage, ..turn };
        proof {
            let e1 = slab_entries(self.sessions);
            assert forall|i: int| 0 <= i < self.order@.len() implies #[trigger] links_at(
                e1,
                self.order@,
                i,
            ) by {
                assert(links_at(e0, self.order@, i));
            }
            assert(self@.sessions =~= old(self)@.sessions.insert(
                turn.key,
                old(self)@.session_after(turn, reply@, now),
            ));
        }
        self.enter(table, next);
        next
    }

    /// Closes the session that was active longest ago, if it has been idle for
    /// too long.
    pub fn expire_next(&mut self, table: &mut ServerTable, now: u64) -> (expired: Option<
        (usize, SocketAddress),
    >)
        requires
            old(self).wf(),
            old(table).wf(),
        ensures
            final(self).wf(),
            final(table).wf(),
            expired is Some <==> old(self)@.order.len() > 0 && old(self)@.idle(
                old(self)@.order.first(),
                now,
            ),
            expired is Some <==> old(self)@.order.len() > 0 && now
                > old(self)@.sessions[old(self)@.order.first()].last_activity + IDLE_TIMEOUT,
            match expired {
                Some((key, backend)) => {
                    &&& key == old(self)@.order.first()
                    &&& backend == old(self)@.sessions[key].session_backend
                    &&& final(self)@ == old(self)@.closed(key)
                    &&& final(table)@ == with_session_ended(old(table)@, backend)
                },
                None => final(self)@ == old(self)@ && final(table)@ == old(table)@,
            },
    {
        match self.list_head {
            Some(key) => {
                assert(links_at(slab_entries(self.sessions), self.order@, 0));
                let last_activity = slab_index(&self.sessions, key).last_activity;
                if now <= last_activity || now - last_activity <= IDLE_TIMEOUT {
                    return None;
                }
                let backend = self.close_session(table, key);
                Some((key, backend))
            },
            None => None,
        }
    }

    /// Goes on at the listening socket. A client is sent to the healthy server
    /// with the fewest sessions, and dropped if there is none.
    pub fn accept_step(
        &self,
        table: &ServerTable,
        healthy: &Vec<SocketAddress>,
        event: AcceptEvent,
    ) -> (action: AcceptAction)
        requires
            table.wf(),
            event is Accepted ==> forall|i: int|
                0 <= i < healthy@.len() ==> table@.contains_key(#[trigger] healthy@[i]),
        ensures
            action == AcceptAction::Stop <==> match event {
                AcceptEvent::Ready => self@.is_shutting_down,
                AcceptEvent::WouldBlock | AcceptEvent::Failed => true,
                _ => false,
            },
            action is Connect <==> event is Accepted && healthy@.len() > 0,
            action matches AcceptAction::Connect(address) ==> exists|i: int|
                #[trigger] least_loaded(table@, healthy@, i) && healthy@[i] == address,
            accept_follows(self@.is_shutting_down, table@, healthy@, event, action),
    {
        match event {
            AcceptEvent::Ready => if self.is_shutting_down {
                AcceptAction::Stop
            } else {
                AcceptAction::Accept
            },
            AcceptEvent::Accepted => match table.least_connections(healthy) {
                Some(address) => AcceptAction::Connect(address),
                None => AcceptAction::Accept,
            },
            AcceptEvent::ConnectFailed | AcceptEvent::Opened => AcceptAction::Accept,
            AcceptEvent::WouldBlock | AcceptEvent::Failed => AcceptAction::Stop,
        }
    }
}

} // verus!
