//! What a session of the eager proxy delivers, and what the eager proxy keeps.

use vstd::prelude::*;
use crate::address::SocketAddress;
use crate::eager::{
    eager_first_stage, eager_fits, eager_interest, eager_last_stage, eager_next_stage,
    eager_relay_after, eager_target, EagerModel, EagerStage, EagerTurn,
};
use crate::registry::Interest;
use crate::relay::{ReadModel, RelayModel, ReplyModel, Side, WriteOutcome};

verus! {

/// What has passed between the proxy and one side of a session.
#[verifier::ext_equal]
pub struct EagerRecord {
    /// The bytes read from the side.
    pub received: Seq<u8>,
    /// The bytes that the side took.
    pub sent: Seq<u8>,
    /// The end of the stream has been read from the side.
    pub ended: bool,
    /// The side has taken none of the bytes that waited for it.
    pub refused: bool,
    /// The side has been told that no more bytes come.
    pub told: bool,
}

/// A session, how far its latest turn has come, and what has passed so far.
#[verifier::ext_equal]
pub struct EagerLife {
    pub relay: RelayModel,
    pub side: Side,
    pub writable: bool,
    pub stage: EagerStage,
    pub client: EagerRecord,
    pub server: EagerRecord,
}

/// What happens to a session: a readiness event on one of its sockets, or a
/// reply to what its turn waits for.
#[verifier::ext_equal]
pub enum EagerHappening {
    Event { side: Side, readable: bool, writable: bool },
    Reply { reply: ReplyModel },
}

/// The side whose write half a stage shuts down.
pub open spec fn eager_told_by(side: Side, stage: EagerStage) -> Option<Side> {
    match stage {
        EagerStage::ShutdownAtEnd
        | EagerStage::ShutdownAfterPush
        | EagerStage::ShutdownOnRefusal => Some(side.peer()),
        EagerStage::ShutdownAfterFlush => Some(side),
        _ => None,
    }
}

impl EagerLife {
    /// A session that has just been opened.
    pub open spec fn fresh() -> EagerLife {
        let nothing = EagerRecord {
            received: Seq::empty(),
            sent: Seq::empty(),
            ended: false,
            refused: false,
            told: false,
        };
        EagerLife {
            relay: RelayModel::fresh(),
            side: Side::Client,
            writable: false,
            stage: EagerStage::Over,
            client: nothing,
            server: nothing,
        }
    }

    pub open spec fn record(self, side: Side) -> EagerRecord {
        match side {
            Side::Client => self.client,
            Side::Server => self.server,
        }
    }

    /// A turn begins once the one before is over, and goes on after a reply to
    /// what it waits for.
    pub open spec fn possible(self, happening: EagerHappening) -> bool {
        match happening {
            EagerHappening::Event { .. } => self.stage is Over,
            EagerHappening::Reply { reply } => eager_fits(
                self.relay,
                self.side,
                self.stage,
                reply,
            ),
        }
    }

    /// What has passed between the proxy and one side after a reply.
    pub open spec fn record_after(self, of: Side, reply: ReplyModel) -> EagerRecord {
        let record = self.record(of);
        let told = record.told || eager_told_by(self.side, self.stage) == Some(of);
        match reply {
            ReplyModel::Read(ReadModel::Received(bytes)) if self.side == of => EagerRecord {
                received: record.received + bytes,
                ended: record.ended || bytes.len() == 0,
                told,
                ..record
            },
            ReplyModel::Written(WriteOutcome::Wrote(count)) if eager_target(self.side, self.stage)
                == of => EagerRecord {
                sent: record.sent + self.relay.buffer_to(of).take(count as int),
                refused: record.refused || (self.stage is Flush && count == 0
                    && self.relay.buffer_to(of).len() > 0),
                told,
                ..record
            },
            _ => EagerRecord { told, ..record },
        }
    }

    /// The session after something has happened to it.
    pub open spec fn after(self, happening: EagerHappening) -> EagerLife {
        match happening {
            EagerHappening::Event { side, readable, writable } => EagerLife {
                side,
                writable,
                stage: eager_first_stage(self.relay, side, readable, writable),
                ..self
            },
            EagerHappening::Reply { reply } => {
                let relay = eager_relay_after(self.relay, self.side, self.stage, reply);
                EagerLife {
                    relay,
                    stage: eager_next_stage(relay, self.side, self.writable, self.stage, reply),
                    client: self.record_after(Side::Client, reply),
                    server: self.record_after(Side::Server, reply),
                    ..self
                }
            },
        }
    }

    /// The session after all of this has happened to it, the first thing first.
    pub open spec fn after_all(self, happenings: Seq<EagerHappening>) -> EagerLife
        decreases happenings.len(),
    {
        if happenings.len() == 0 {
            self
        } else {
            self.after_all(happenings.drop_last()).after(happenings.last())
        }
    }

    /// Each of these can happen after those before it.
    pub open spec fn all_possible(self, happenings: Seq<EagerHappening>) -> bool
        decreases happenings.len(),
    {
        happenings.len() > 0 ==> {
            &&& self.all_possible(happenings.drop_last())
            &&& self.after_all(happenings.drop_last()).possible(happenings.last())
        }
    }

    /// The side has got, and is about to get, exactly what was read from the other.
    pub open spec fn relays_to(self, to: Side) -> bool {
        self.record(to).sent + self.relay.buffer_to(to) == self.record(to.peer()).received
    }

    /// A side is closed just when the end of the stream has been read from it, or
    /// it has taken none of the bytes that waited for it.
    pub open spec fn mirrors(self, side: Side) -> bool {
        self.relay.closed(side) <==> self.record(side).ended || self.record(side).refused
    }

    /// A side that has got everything from one that is closed is told so.
    pub open spec fn tells_in_time(self, to: Side) -> bool {
        self.relay.closed(to.peer()) && self.relay.buffer_to(to).len() == 0
            ==> self.record(to).told || eager_told_by(self.side, self.stage) == Some(to)
    }

    /// A side is told that no more comes only once the other is closed.
    pub open spec fn tells_no_early(self, to: Side) -> bool {
        self.record(to).told ==> self.relay.closed(to.peer())
    }

    pub open spec fn sound(self) -> bool {
        &&& self.relays_to(Side::Client)
        &&& self.relays_to(Side::Server)
        &&& self.mirrors(Side::Client)
        &&& self.mirrors(Side::Server)
        &&& self.tells_in_time(Side::Client)
        &&& self.tells_in_time(Side::Server)
        &&& self.tells_no_early(Side::Client)
        &&& self.tells_no_early(Side::Server)
        &&& eager_told_by(self.side, self.stage) matches Some(to) ==> self.relay.buffer_to(
            to,
        ).len() == 0 && self.relay.closed(to.peer())
        &&& self.stage is Flush ==> self.writable && self.relay.buffer_to(self.side).len() > 0
        &&& self.stage is RegisterAfterFlush || self.stage is ShutdownAfterFlush
            || self.stage is DeregisterAfterFlush ==> self.writable
        &&& self.stage is Over || self.stage is Closed ==> self.stage == eager_last_stage(
            self.relay,
        )
    }
}

proof fn lemma_relays(life: EagerLife, happening: EagerHappening, to: Side)
    requires
        life.possible(happening),
        life.relays_to(to),
    ensures
        life.after(happening).relays_to(to),
{
    if let EagerHappening::Reply { reply } = happening {
        let before = life.relay.buffer_to(to);
        let sent = life.record(to).sent;
        match reply {
            ReplyModel::Read(ReadModel::Received(bytes)) => {
                if life.side == to.peer() {
                    assert(sent + (before + bytes) =~= (sent + before) + bytes);
                    if bytes.len() == 0 {
                        assert((sent + before) + bytes =~= sent + before);
                    }
                }
            },
            ReplyModel::Written(WriteOutcome::Wrote(count)) => {
                if eager_target(life.side, life.stage) == to {
                    assert((sent + before.take(count as int)) + before.skip(count as int) =~= sent
                        + before);
                    assert(before.skip(0) =~= before);
                }
            },
            _ => {},
        }
    }
}

/// Whatever happens to a session: the bytes read from one side reach the other in
/// order, and those that have not reached it still wait. A side is closed just
/// when it has ended its stream or has taken none of the bytes that waited for
/// it. Its write half is shut down only when no bytes wait for it and the other
/// side is closed, and then it is. The session is closed at the end of a turn
/// just when both sides are closed and nothing waits.
pub proof fn law_eager_sessions_deliver(happenings: Seq<EagerHappening>)
    requires
        EagerLife::fresh().all_possible(happenings),
    ensures
        EagerLife::fresh().after_all(happenings).sound(),
    decreases happenings.len(),
{
    let start = EagerLife::fresh();
    if happenings.len() == 0 {
        assert(Seq::<u8>::empty() + Seq::<u8>::empty() =~= Seq::<u8>::empty());
    } else {
        law_eager_sessions_deliver(happenings.drop_last());
        let life = start.after_all(happenings.drop_last());
        lemma_relays(life, happenings.last(), Side::Client);
        lemma_relays(life, happenings.last(), Side::Server);
    }
}

/// When a session is closed, each side has got exactly what was read from the
/// other, and has been told that no more comes.
pub proof fn law_closed_eager_sessions_have_delivered(happenings: Seq<EagerHappening>)
    requires
        EagerLife::fresh().all_possible(happenings),
        EagerLife::fresh().after_all(happenings).stage is Closed,
    ensures
        ({
            let life = EagerLife::fresh().after_all(happenings);
            &&& life.relay.finished()
            &&& life.client.sent == life.server.received
            &&& life.server.sent == life.client.received
            &&& life.client.told
            &&& life.server.told
        }),
{
    law_eager_sessions_deliver(happenings);
    let life = EagerLife::fresh().after_all(happenings);
    assert(life.client.sent + life.relay.client_buffer =~= life.client.sent);
    assert(life.server.sent + life.relay.server_buffer =~= life.server.sent);
}

/// Opening a session begins one, on its server and with both sockets watched for
/// reading, and leaves the others as they are.
pub proof fn law_eager_opening_begins_one_session(
    proxy: EagerModel,
    key: usize,
    backend: SocketAddress,
)
    ensures
        ({
            let after = proxy.opened(key, backend);
            &&& after.sessions.contains_key(key)
            &&& after.sessions[key] == EagerLife::fresh().relay
            &&& after.backends[key] == backend
            &&& eager_interest(after.sessions[key], Side::Client) == Interest::Readable
            &&& eager_interest(after.sessions[key], Side::Server) == Interest::Readable
            &&& forall|other: usize|
                other != key ==> {
                    &&& #[trigger] after.sessions.contains_key(other)
                        <==> proxy.sessions.contains_key(other)
                    &&& after.sessions[other] == proxy.sessions[other]
                    &&& after.backends[other] == proxy.backends[other]
                }
        }),
{
}

/// A readiness event at the proxy happens to the session that it is for, and to
/// no other session.
pub proof fn law_eager_events_happen_to_one_session(
    proxy: EagerModel,
    key: usize,
    side: Side,
    readable: bool,
    writable: bool,
    life: EagerLife,
)
    requires
        proxy.sessions.contains_key(key),
        life.relay == proxy.sessions[key],
    ensures
        ({
            let turn = proxy.first_turn(key, side, readable, writable);
            let after = proxy.entered(turn);
            let next = life.after(EagerHappening::Event { side, readable, writable });
            &&& next.side == turn.side
            &&& next.writable == turn.writable
            &&& next.stage == turn.stage
            &&& after.sessions.contains_key(key) <==> !(next.stage is Closed)
            &&& after.sessions.contains_key(key) ==> after.sessions[key] == next.relay
            &&& forall|other: usize|
                other != key ==> {
                    &&& #[trigger] after.sessions.contains_key(other)
                        <==> proxy.sessions.contains_key(other)
                    &&& after.sessions[other] == proxy.sessions[other]
                    &&& after.backends[other] == proxy.backends[other]
                }
        }),
{
}

/// A reply at the proxy happens to the session of the turn, and to no other
/// session.
pub proof fn law_eager_replies_happen_to_one_session(
    proxy: EagerModel,
    turn: EagerTurn,
    reply: ReplyModel,
    life: EagerLife,
)
    requires
        proxy.sessions.contains_key(turn.key),
        life.relay == proxy.sessions[turn.key],
        life.side == turn.side,
        life.writable == turn.writable,
        life.stage == turn.stage,
    ensures
        ({
            let after = proxy.resumed(turn, reply);
            let next = life.after(EagerHappening::Reply { reply });
            &&& next.stage == proxy.next_turn(turn, reply).stage
            &&& after.sessions.contains_key(turn.key) <==> !(next.stage is Closed)
            &&& after.sessions.contains_key(turn.key) ==> after.sessions[turn.key] == next.relay
            &&& forall|other: usize|
                other != turn.key ==> {
                    &&& #[trigger] after.sessions.contains_key(other)
                        <==> proxy.sessions.contains_key(other)
                    &&& after.sessions[other] == proxy.sessions[other]
                    &&& after.backends[other] == proxy.backends[other]
                }
        }),
{
}

/// A proxy that is shutting down stays so, and turns bring no session that was
/// not there before.
pub proof fn law_eager_shutdown_only_drains(proxy: EagerModel, turn: EagerTurn, reply: ReplyModel)
    requires
        proxy.sessions.contains_key(turn.key),
    ensures
        proxy.resumed(turn, reply).is_shutting_down == proxy.is_shutting_down,
        proxy.resumed(turn, reply).sessions.dom().subset_of(proxy.sessions.dom()),
        proxy.entered(turn).is_shutting_down == proxy.is_shutting_down,
        proxy.entered(turn).sessions.dom().subset_of(proxy.sessions.dom()),
{
}

} // verus!
