//! What a session of the phased proxy delivers: the bytes read from one side
//! reach the other, and so does the end of the stream.

use vstd::prelude::*;
use crate::address::SocketAddress;
use crate::phased::{
    first_stage, fits, is_activity, last_stage, next_stage, opened_stage, relay_after, target,
    ProxyModel, Stage, Turn,
};
use crate::relay::{ReadModel, RelayModel, ReplyModel, Side, WriteOutcome};
use crate::session::SessionModel;

verus! {

/// What has passed between the proxy and one side of a session.
#[verifier::ext_equal]
pub struct Record {
    /// The bytes read from the side.
    pub received: Seq<u8>,
    /// The bytes that the side took.
    pub sent: Seq<u8>,
    /// The end of the stream has been read from the side.
    pub ended: bool,
    /// The side has been told that no more bytes come.
    pub told: bool,
    /// A read from the side has failed.
    pub read_failed: bool,
    /// A write to the side has failed.
    pub write_failed: bool,
}

/// A session, how far its latest turn has come, and what has passed so far.
#[verifier::ext_equal]
pub struct Life {
    pub session: SessionModel,
    pub side: Side,
    pub stage: Stage,
    pub client: Record,
    pub server: Record,
}

/// What happens to a session: a readiness event on one of its sockets, or a
/// reply to what its turn waits for.
#[verifier::ext_equal]
pub enum Happening {
    Event { side: Side, readable: bool },
    Reply { reply: ReplyModel, now: u64 },
}

/// The side whose write half a stage shuts down.
pub open spec fn told_by(side: Side, stage: Stage) -> Option<Side> {
    match stage {
        Stage::ShutdownAfterRead => Some(side.peer()),
        Stage::ShutdownServer => Some(Side::Server),
        Stage::ShutdownClient => Some(Side::Client),
        _ => None,
    }
}

impl Record {
    pub open spec fn fresh() -> Record {
        Record {
            received: Seq::empty(),
            sent: Seq::empty(),
            ended: false,
            told: false,
            read_failed: false,
            write_failed: false,
        }
    }
}

impl Life {
    /// A session that has just been opened: both sockets are registered for
    /// reading.
    pub open spec fn fresh(backend: SocketAddress, now: u64) -> Life {
        Life {
            session: SessionModel {
                relay: RelayModel::fresh(),
                session_backend: backend,
                last_activity: now,
            },
            side: Side::Client,
            stage: opened_stage(),
            client: Record::fresh(),
            server: Record::fresh(),
        }
    }

    pub open spec fn record(self, side: Side) -> Record {
        match side {
            Side::Client => self.client,
            Side::Server => self.server,
        }
    }

    /// A turn begins once the one before is over, and goes on after a reply to
    /// what it waits for.
    pub open spec fn possible(self, happening: Happening) -> bool {
        match happening {
            Happening::Event { .. } => self.stage is Register,
            Happening::Reply { reply, .. } => fits(self.session.relay, self.stage, reply),
        }
    }

    /// What has passed between the proxy and one side after a reply.
    pub open spec fn record_after(self, of: Side, reply: ReplyModel) -> Record {
        let record = self.record(of);
        let reads = self.stage is Read && self.side == of;
        let writes = target(self.stage) == Some(of);
        Record {
            received: match reply {
                ReplyModel::Read(ReadModel::Received(bytes)) if reads => record.received + bytes,
                _ => record.received,
            },
            sent: match reply {
                ReplyModel::Written(WriteOutcome::Wrote(count)) if writes => record.sent
                    + self.session.relay.buffer_to(of).take(count as int),
                _ => record.sent,
            },
            ended: record.ended || (reads && reply == ReplyModel::Read(
                ReadModel::Received(Seq::empty()),
            )),
            told: record.told || told_by(self.side, self.stage) == Some(of),
            read_failed: record.read_failed || (reads && reply == ReplyModel::Read(
                ReadModel::Failed,
            )),
            write_failed: record.write_failed || (writes && reply == ReplyModel::Written(
                WriteOutcome::Failed,
            )),
        }
    }

    /// The session after something has happened to it.
    pub open spec fn after(self, happening: Happening) -> Life {
        match happening {
            Happening::Event { side, readable } => Life {
                side,
                stage: first_stage(self.session, side, readable),
                ..self
            },
            Happening::Reply { reply, now } => {
                let session = SessionModel {
                    relay: relay_after(self.session.relay, self.side, self.stage, reply),
                    last_activity: if is_activity(reply) {
                        now
                    } else {
                        self.session.last_activity
                    },
                    ..self.session
                };
                Life {
                    session,
                    side: self.side,
                    stage: next_stage(session, self.side, self.stage, reply),
                    client: self.record_after(Side::Client, reply),
                    server: self.record_after(Side::Server, reply),
                }
            },
        }
    }

    /// The session after all of this has happened to it, the first thing first.
    pub open spec fn after_all(self, happenings: Seq<Happening>) -> Life
        decreases happenings.len(),
    {
        if happenings.len() == 0 {
            self
        } else {
            self.after_all(happenings.drop_last()).after(happenings.last())
        }
    }

    /// Each of these can happen after those before it.
    pub open spec fn all_possible(self, happenings: Seq<Happening>) -> bool
        decreases happenings.len(),
    {
        happenings.len() > 0 ==> {
            &&& self.all_possible(happenings.drop_last())
            &&& self.after_all(happenings.drop_last()).possible(happenings.last())
        }
    }

    /// Unless a write to the side has failed, it has got, and is about to get,
    /// exactly what was read from the other side.
    pub open spec fn relays_to(self, to: Side) -> bool {
        !self.record(to).write_failed ==> self.record(to).sent + self.session.relay.buffer_to(to)
            == self.record(to.peer()).received
    }

    /// A side is closed just when the end of the stream has been read from it, or
    /// a read from it or a write to it has failed.
    pub open spec fn mirrors(self, side: Side) -> bool {
        self.session.relay.closed(side) <==> self.record(side).ended || self.record(
            side,
        ).read_failed || self.record(side).write_failed
    }

    /// A side is told that no more comes only once the other has stopped
    /// sending and, unless a read has failed, once it has got everything.
    pub open spec fn tells_no_early(self, to: Side) -> bool {
        self.record(to).told || told_by(self.side, self.stage) == Some(to) ==> {
            &&& self.session.relay.closed(to.peer())
            &&& !self.record(to.peer()).read_failed ==> self.session.relay.buffer_to(to).len() == 0
        }
    }

    /// Unless a write has failed, a side that has got everything from one that
    /// has stopped sending is told so.
    pub open spec fn tells_in_time(self, to: Side) -> bool {
        !self.client.write_failed && !self.server.write_failed && self.session.relay.closed(
            to.peer(),
        ) && self.session.relay.buffer_to(to).len() == 0 ==> self.record(to).told || told_by(
            self.side,
            self.stage,
        ) == Some(to)
    }

    /// A side is read from only until it has stopped sending.
    pub open spec fn reads_open_side(self) -> bool {
        self.stage is Read ==> !self.session.relay.closed(self.side)
    }

    /// A turn ends with the registration that the session needs, or with its
    /// closing.
    pub open spec fn ends_right(self) -> bool {
        self.stage is Register || self.stage is Closed ==> self.stage == last_stage(self.session)
    }

    pub open spec fn sound(self) -> bool {
        &&& self.relays_to(Side::Client)
        &&& self.relays_to(Side::Server)
        &&& self.mirrors(Side::Client)
        &&& self.mirrors(Side::Server)
        &&& self.tells_no_early(Side::Client)
        &&& self.tells_no_early(Side::Server)
        &&& self.tells_in_time(Side::Client)
        &&& self.tells_in_time(Side::Server)
        &&& self.reads_open_side()
        &&& self.ends_right()
    }
}

proof fn lemma_relays(life: Life, happening: Happening, to: Side)
    requires
        life.possible(happening),
        life.relays_to(to),
    ensures
        life.after(happening).relays_to(to),
{
    if let Happening::Reply { reply, now } = happening {
        let before = life.session.relay.buffer_to(to);
        let after = life.after(happening);
        match reply {
            ReplyModel::Read(ReadModel::Received(bytes)) => {
                if bytes.len() == 0 {
                    assert(life.record(to.peer()).received + bytes =~= life.record(
                        to.peer(),
                    ).received);
                }
                if life.side == to.peer() && bytes.len() > 0 {
                    assert(after.session.relay.buffer_to(to) == before + bytes);
                    assert(life.record(to).sent + (before + bytes) =~= (life.record(to).sent
                        + before) + bytes);
                }
            },
            ReplyModel::Written(WriteOutcome::Wrote(count)) => {
                if target(life.stage) == Some(to) {
                    assert((life.record(to).sent + before.take(count as int)) + before.skip(
                        count as int,
                    ) =~= life.record(to).sent + before);
                }
            },
            _ => {},
        }
    }
}

proof fn lemma_step(life: Life, happening: Happening)
    requires
        life.possible(happening),
        life.sound(),
    ensures
        life.after(happening).sound(),
{
    lemma_relays(life, happening, Side::Client);
    lemma_relays(life, happening, Side::Server);
    if let Happening::Reply { reply, .. } = happening {
        if let ReplyModel::Read(ReadModel::Received(bytes)) = reply {
            assert(bytes.len() == 0 ==> bytes =~= Seq::empty());
        }
    }
}

/// Whatever happens to a session: the bytes read from one side reach the other in
/// order and complete as long as writing to it works; a side is closed just when
/// it has ended its stream or an operation on it has failed; neither side is told
/// too early or too late that the other has stopped sending; and each turn ends
/// with the registration that the session needs.
pub proof fn law_sessions_deliver(
    backend: SocketAddress,
    opened_at: u64,
    happenings: Seq<Happening>,
)
    requires
        Life::fresh(backend, opened_at).all_possible(happenings),
    ensures
        Life::fresh(backend, opened_at).after_all(happenings).sound(),
    decreases happenings.len(),
{
    let start = Life::fresh(backend, opened_at);
    if happenings.len() == 0 {
        assert(Seq::<u8>::empty() + Seq::<u8>::empty() =~= Seq::<u8>::empty());
    } else {
        law_sessions_deliver(backend, opened_at, happenings.drop_last());
        lemma_step(start.after_all(happenings.drop_last()), happenings.last());
    }
}

/// A session is closed once both sides have stopped sending and nothing waits
/// to be sent on. If no write has failed, each side has then got exactly what
/// was read from the other, and has been told that no more comes.
pub proof fn law_closed_sessions_have_delivered(
    backend: SocketAddress,
    opened_at: u64,
    happenings: Seq<Happening>,
)
    requires
        Life::fresh(backend, opened_at).all_possible(happenings),
        Life::fresh(backend, opened_at).after_all(happenings).stage is Closed,
    ensures
        ({
            let life = Life::fresh(backend, opened_at).after_all(happenings);
            &&& life.session.relay.finished()
            &&& !life.client.write_failed && !life.server.write_failed ==> {
                &&& life.client.sent == life.server.received
                &&& life.server.sent == life.client.received
                &&& life.client.told
                &&& life.server.told
            }
        }),
{
    law_sessions_deliver(backend, opened_at, happenings);
    let life = Life::fresh(backend, opened_at).after_all(happenings);
    assert(life.client.sent + life.session.relay.client_buffer =~= life.client.sent);
    assert(life.server.sent + life.session.relay.server_buffer =~= life.server.sent);
}

/// Opening a session begins its life and touches no other session.
pub proof fn law_opening_begins_one_session(
    proxy: ProxyModel,
    key: usize,
    backend: SocketAddress,
    now: u64,
)
    ensures
        ({
            let after = proxy.opened(key, backend, now);
            &&& after.sessions.contains_key(key)
            &&& after.sessions[key] == Life::fresh(backend, now).session
            &&& last_stage(after.sessions[key]) == Life::fresh(backend, now).stage
            &&& forall|other: usize|
                other != key ==> {
                    &&& #[trigger] after.sessions.contains_key(other)
                        <==> proxy.sessions.contains_key(other)
                    &&& after.sessions[other] == proxy.sessions[other]
                }
        }),
{
}

/// Closing a session, as when it has been idle for too long, touches no other
/// session.
pub proof fn law_closing_ends_one_session(proxy: ProxyModel, key: usize)
    ensures
        !proxy.closed(key).sessions.contains_key(key),
        forall|other: usize|
            other != key ==> {
                &&& #[trigger] proxy.closed(key).sessions.contains_key(other)
                    <==> proxy.sessions.contains_key(other)
                &&& proxy.closed(key).sessions[other] == proxy.sessions[other]
            },
{
}

/// A readiness event at the proxy happens to the session that it is for, and to
/// no other session.
pub proof fn law_events_happen_to_one_session(
    proxy: ProxyModel,
    key: usize,
    side: Side,
    readable: bool,
    life: Life,
)
    requires
        proxy.sessions.contains_key(key),
        life.session == proxy.sessions[key],
    ensures
        ({
            let turn = proxy.first_turn(key, side, readable);
            let after = proxy.entered(turn);
            let next = life.after(Happening::Event { side, readable });
            &&& next.side == turn.side
            &&& next.stage == turn.stage
            &&& after.sessions.contains_key(key) <==> !(next.stage is Closed)
            &&& after.sessions.contains_key(key) ==> after.sessions[key] == next.session
            &&& forall|other: usize|
                other != key ==> {
                    &&& #[trigger] after.sessions.contains_key(other)
                        <==> proxy.sessions.contains_key(other)
                    &&& after.sessions[other] == proxy.sessions[other]
                }
        }),
{
}

/// A reply at the proxy happens to the session of the turn, and to no other
/// session.
pub proof fn law_replies_happen_to_one_session(
    proxy: ProxyModel,
    turn: Turn,
    reply: ReplyModel,
    now: u64,
    life: Life,
)
    requires
        proxy.sessions.contains_key(turn.key),
        life.session == proxy.sessions[turn.key],
        life.side == turn.side,
        life.stage == turn.stage,
    ensures
        ({
            let after = proxy.resumed(turn, reply, now);
            let next = life.after(Happening::Reply { reply, now });
            &&& next.side == proxy.next_turn(turn, reply, now).side
            &&& next.stage == proxy.next_turn(turn, reply, now).stage
            &&& after.sessions.contains_key(turn.key) <==> !(next.stage is Closed)
            &&& after.sessions.contains_key(turn.key) ==> after.sessions[turn.key] == next.session
            &&& forall|other: usize|
                other != turn.key ==> {
                    &&& #[trigger] after.sessions.contains_key(other)
                        <==> proxy.sessions.contains_key(other)
                    &&& after.sessions[other] == proxy.sessions[other]
                }
        }),
{
}

} // verus!
