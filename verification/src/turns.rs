//! What one step of a turn of the phased proxy does, told by the state of the
//! session before and after it.

use vstd::prelude::*;
use crate::address::SocketAddress;
use crate::delivery::{law_sessions_deliver, Happening, Life};
use crate::phased::{
    accept_follows, fits, law_connections_are_sessions, table_entered, AcceptAction, AcceptEvent,
    ProxyModel, Stage, Turn, IDLE_TIMEOUT,
};
use crate::recency::without;
use crate::relay::{ReadModel, ReplyModel, Side, WriteOutcome};
use crate::servers::{law_pick_is_determined, law_picks_serve_the_fewest, least_loaded};
use crate::session::SessionModel;

verus! {

/// A session that an event leaves open has each socket registered for reading
/// just when its side has not closed, and for writing just when bytes wait for
/// it.
pub proof fn law_events_leave_sockets_watched(
    proxy: ProxyModel,
    key: usize,
    side: Side,
    readable: bool,
)
    requires
        proxy.sessions.contains_key(key),
    ensures
        ({
            let turn = proxy.first_turn(key, side, readable);
            let after = proxy.entered(turn);
            turn.stage matches Stage::Register { client, server } ==> {
                &&& after.sessions.contains_key(key)
                &&& client.read <==> !after.sessions[key].relay.client_closed
                &&& client.write <==> after.sessions[key].relay.client_buffer.len() > 0
                &&& server.read <==> !after.sessions[key].relay.server_closed
                &&& server.write <==> after.sessions[key].relay.server_buffer.len() > 0
                &&& client.read || client.write || server.read || server.write
            }
        }),
{
}

/// A session that a reply leaves open at the end of its turn has each socket
/// registered for reading just when its side has not closed, and for writing
/// just when bytes wait for it.
pub proof fn law_replies_leave_sockets_watched(
    proxy: ProxyModel,
    turn: Turn,
    reply: ReplyModel,
    now: u64,
)
    requires
        proxy.sessions.contains_key(turn.key),
        fits(proxy.sessions[turn.key].relay, turn.stage, reply),
    ensures
        ({
            let next = proxy.next_turn(turn, reply, now);
            let after = proxy.resumed(turn, reply, now);
            next.stage matches Stage::Register { client, server } ==> {
                &&& after.sessions.contains_key(turn.key)
                &&& client.read <==> !after.sessions[turn.key].relay.client_closed
                &&& client.write <==> after.sessions[turn.key].relay.client_buffer.len() > 0
                &&& server.read <==> !after.sessions[turn.key].relay.server_closed
                &&& server.write <==> after.sessions[turn.key].relay.server_buffer.len() > 0
                &&& client.read || client.write || server.read || server.write
            }
        }),
{
}

/// A session that is open between turns has, after any history, each socket
/// registered for reading just when no end of stream and no failure has come
/// from its side, and for writing just when not all that was read from the other
/// side has been sent on to it.
pub proof fn law_open_sessions_are_watched(
    backend: SocketAddress,
    opened_at: u64,
    happenings: Seq<Happening>,
)
    requires
        Life::fresh(backend, opened_at).all_possible(happenings),
    ensures
        ({
            let life = Life::fresh(backend, opened_at).after_all(happenings);
            life.stage matches Stage::Register { client, server } ==> {
                &&& client.read <==> !(life.client.ended || life.client.read_failed
                    || life.client.write_failed)
                &&& server.read <==> !(life.server.ended || life.server.read_failed
                    || life.server.write_failed)
                &&& !life.client.write_failed ==> (client.write <==> life.client.sent.len()
                    < life.server.received.len())
                &&& !life.server.write_failed ==> (server.write <==> life.server.sent.len()
                    < life.client.received.len())
            }
        }),
{
    law_sessions_deliver(backend, opened_at, happenings);
    let life = Life::fresh(backend, opened_at).after_all(happenings);
    assert(life.relays_to(Side::Client));
    assert(life.relays_to(Side::Server));
    assert(life.mirrors(Side::Client));
    assert(life.mirrors(Side::Server));
}

/// A readable event on a side that has not closed begins with a read from that
/// side, whatever the state of the other side. No other event does.
pub proof fn law_readable_sides_are_read(
    proxy: ProxyModel,
    key: usize,
    side: Side,
    readable: bool,
)
    requires
        proxy.sessions.contains_key(key),
    ensures
        ({
            let turn = proxy.first_turn(key, side, readable);
            let relay = proxy.sessions[key].relay;
            &&& turn.key == key
            &&& turn.side == side
            &&& !turn.active
            &&& side == Side::Client ==> (turn.stage is Read <==> readable && !relay.client_closed)
            &&& side == Side::Server ==> (turn.stage is Read <==> readable && !relay.server_closed)
        }),
{
}

/// An event that brings nothing to read has the turn write to a side that bytes
/// wait for, to the server first, and end if bytes wait for neither. It changes
/// no session unless it closes the one that it is for.
pub proof fn law_events_without_a_read_write_what_waits(
    proxy: ProxyModel,
    key: usize,
    side: Side,
    readable: bool,
)
    requires
        proxy.sessions.contains_key(key),
    ensures
        ({
            let turn = proxy.first_turn(key, side, readable);
            let after = proxy.entered(turn);
            let relay = proxy.sessions[key].relay;
            &&& !(turn.stage is Read) ==> {
                &&& turn.stage is WriteServer <==> relay.server_buffer.len() > 0
                &&& turn.stage is WriteClient <==> relay.server_buffer.len() == 0
                    && relay.client_buffer.len() > 0
                &&& turn.stage is Closed <==> relay.server_buffer.len() == 0
                    && relay.client_buffer.len() == 0 && relay.client_closed
                    && relay.server_closed
                &&& turn.stage is Register <==> relay.server_buffer.len() == 0
                    && relay.client_buffer.len() == 0 && !(relay.client_closed
                    && relay.server_closed)
            }
            &&& !(turn.stage is Closed) ==> after == proxy
            &&& turn.stage is Closed ==> {
                &&& turn.stage == (Stage::Closed { backend: proxy.sessions[key].session_backend })
                &&& after == proxy.closed(key)
            }
        }),
{
}

/// A turn reads until a read brings no bytes, and not again after that.
pub proof fn law_reads_are_exhausted(proxy: ProxyModel, turn: Turn, reply: ReplyModel, now: u64)
    requires
        proxy.sessions.contains_key(turn.key),
        fits(proxy.sessions[turn.key].relay, turn.stage, reply),
    ensures
        proxy.next_turn(turn, reply, now).stage is Read <==> {
            &&& turn.stage is Read
            &&& reply matches ReplyModel::Read(ReadModel::Received(bytes))
            &&& bytes.len() > 0
        },
{
}

/// A turn writes to a side until nothing waits for it or it takes no more, and
/// passes over no side that bytes wait for: to the server before the client,
/// and to both of them before the turn is over.
pub proof fn law_writes_are_exhausted(proxy: ProxyModel, turn: Turn, reply: ReplyModel, now: u64)
    requires
        proxy.sessions.contains_key(turn.key),
        fits(proxy.sessions[turn.key].relay, turn.stage, reply),
    ensures
        ({
            let next = proxy.next_turn(turn, reply, now).stage;
            let relay = proxy.session_after(turn, reply, now).relay;
            let took = reply is Written && reply->Written_0 is Wrote;
            &&& turn.stage is WriteServer ==> (next is WriteServer <==> took
                && relay.server_buffer.len() > 0)
            &&& turn.stage is WriteClient ==> (next is WriteClient <==> took
                && relay.client_buffer.len() > 0)
            &&& turn.stage is Read || turn.stage is ShutdownAfterRead ==> (next is WriteServer
                <==> relay.server_buffer.len() > 0 && !(next is Read)
                && !(next is ShutdownAfterRead))
            &&& !(turn.stage is WriteClient || turn.stage is ShutdownClient) ==> (next
                is WriteClient <==> relay.client_buffer.len() > 0 && !(next is Read)
                && !(next is ShutdownAfterRead) && !(next is WriteServer)
                && !(next is ShutdownServer))
            &&& turn.stage is ShutdownServer || turn.stage is WriteClient || turn.stage
                is ShutdownClient ==> !(next is WriteServer)
            &&& turn.stage is ShutdownClient ==> !(next is WriteClient)
        }),
{
}

/// The write half of a side is shut down when the other side has ended its stream
/// and nothing waits any more, be it at the end of the stream or once the last
/// bytes have been taken; and at once when reading from the other side fails.
pub proof fn law_write_halves_are_shut_down(
    proxy: ProxyModel,
    turn: Turn,
    reply: ReplyModel,
    now: u64,
)
    requires
        proxy.sessions.contains_key(turn.key),
        fits(proxy.sessions[turn.key].relay, turn.stage, reply),
    ensures
        ({
            let next = proxy.next_turn(turn, reply, now).stage;
            let relay = proxy.session_after(turn, reply, now).relay;
            let took = reply is Written && reply->Written_0 is Wrote;
            let waits_for_other = match turn.side {
                Side::Client => relay.server_buffer.len() > 0,
                Side::Server => relay.client_buffer.len() > 0,
            };
            &&& next is ShutdownAfterRead <==> turn.stage is Read && (reply == ReplyModel::Read(
                ReadModel::Failed,
            ) || (reply is Read && reply->Read_0 is Received && reply->Read_0->Received_0.len()
                == 0 && !waits_for_other))
            &&& next is ShutdownServer <==> turn.stage is WriteServer && took
                && relay.server_buffer.len() == 0 && relay.client_closed
            &&& next is ShutdownClient <==> turn.stage is WriteClient && took
                && relay.client_buffer.len() == 0 && relay.server_closed
        }),
{
}

/// A turn that ends closes the session just when neither side sends any more and
/// nothing waits for either, and names the server of the session. The session is
/// then gone, and no other is.
pub proof fn law_finished_sessions_are_closed(
    proxy: ProxyModel,
    turn: Turn,
    reply: ReplyModel,
    now: u64,
)
    requires
        proxy.consistent(),
        proxy.sessions.contains_key(turn.key),
        fits(proxy.sessions[turn.key].relay, turn.stage, reply),
    ensures
        ({
            let next = proxy.next_turn(turn, reply, now).stage;
            let relay = proxy.session_after(turn, reply, now).relay;
            let after = proxy.resumed(turn, reply, now);
            let finished = relay.client_closed && relay.server_closed && relay.client_buffer.len()
                == 0 && relay.server_buffer.len() == 0;
            &&& next is Register || next is Closed ==> (next is Closed <==> finished)
            &&& next matches Stage::Closed { backend } ==> {
                &&& backend == proxy.sessions[turn.key].session_backend
                &&& after.sessions == proxy.sessions.remove(turn.key)
                &&& after.num_connections == proxy.num_connections - 1
            }
            &&& !(next is Closed) ==> {
                &&& after.sessions == proxy.sessions.insert(
                    turn.key,
                    proxy.session_after(turn, reply, now),
                )
                &&& after.num_connections == proxy.num_connections
            }
        }),
{
    assert(proxy.order.contains(turn.key));
    let after = proxy.resumed(turn, reply, now);
    if proxy.next_turn(turn, reply, now).stage is Closed {
        assert(after.sessions =~= proxy.sessions.remove(turn.key));
    }
}

/// What a read brings waits for the other side, behind what waited before. An end
/// of stream or a failure closes the side that was read from. Nothing else about
/// the bytes changes.
pub proof fn law_reads_pass_on_what_they_bring(
    proxy: ProxyModel,
    turn: Turn,
    outcome: ReadModel,
    now: u64,
)
    requires
        proxy.sessions.contains_key(turn.key),
        turn.stage is Read,
    ensures
        ({
            let before = proxy.sessions[turn.key].relay;
            let after = proxy.session_after(turn, ReplyModel::Read(outcome), now).relay;
            let bytes = match outcome {
                ReadModel::Received(bytes) => bytes,
                _ => Seq::empty(),
            };
            let ends = outcome is Failed || (outcome is Received && bytes.len() == 0);
            match turn.side {
                Side::Client => {
                    &&& after.server_buffer == before.server_buffer + bytes
                    &&& after.client_buffer == before.client_buffer
                    &&& after.client_closed <==> before.client_closed || ends
                    &&& after.server_closed == before.server_closed
                },
                Side::Server => {
                    &&& after.client_buffer == before.client_buffer + bytes
                    &&& after.server_buffer == before.server_buffer
                    &&& after.server_closed <==> before.server_closed || ends
                    &&& after.client_closed == before.client_closed
                },
            }
        }),
{
    let before = proxy.sessions[turn.key].relay;
    assert(before.client_buffer + Seq::<u8>::empty() =~= before.client_buffer);
    assert(before.server_buffer + Seq::<u8>::empty() =~= before.server_buffer);
    if let ReadModel::Received(bytes) = outcome {
        if bytes.len() == 0 {
            assert(bytes =~= Seq::<u8>::empty());
        }
    }
}

/// The bytes that a side takes leave from the front of those that wait for it. A
/// failure closes the side and gives up all that waits for it. Nothing else about
/// the bytes changes.
pub proof fn law_writes_take_from_the_front(
    proxy: ProxyModel,
    turn: Turn,
    outcome: WriteOutcome,
    now: u64,
)
    requires
        proxy.sessions.contains_key(turn.key),
        turn.stage is WriteServer || turn.stage is WriteClient,
        fits(proxy.sessions[turn.key].relay, turn.stage, ReplyModel::Written(outcome)),
    ensures
        ({
            let before = proxy.sessions[turn.key].relay;
            let after = proxy.session_after(turn, ReplyModel::Written(outcome), now).relay;
            let (waited, waits) = if turn.stage is WriteServer {
                (before.server_buffer, after.server_buffer)
            } else {
                (before.client_buffer, after.client_buffer)
            };
            &&& match outcome {
                WriteOutcome::Wrote(count) => count <= waited.len() && waited.take(count as int)
                    + waits == waited,
                WriteOutcome::WouldBlock => waits == waited,
                WriteOutcome::Failed => waits.len() == 0,
            }
            &&& turn.stage is WriteServer ==> {
                &&& after.client_buffer == before.client_buffer
                &&& after.client_closed == before.client_closed
                &&& after.server_closed <==> before.server_closed || outcome is Failed
            }
            &&& turn.stage is WriteClient ==> {
                &&& after.server_buffer == before.server_buffer
                &&& after.server_closed == before.server_closed
                &&& after.client_closed <==> before.client_closed || outcome is Failed
            }
        }),
{
    let before = proxy.sessions[turn.key].relay;
    if let WriteOutcome::Wrote(count) = outcome {
        let waited = if turn.stage is WriteServer {
            before.server_buffer
        } else {
            before.client_buffer
        };
        assert(waited.take(count as int) + waited.skip(count as int) =~= waited);
    }
}

/// Shutting a write half down changes nothing about the session.
pub proof fn law_shutdowns_change_no_session(proxy: ProxyModel, turn: Turn, now: u64)
    requires
        proxy.sessions.contains_key(turn.key),
    ensures
        proxy.session_after(turn, ReplyModel::Done, now) == proxy.sessions[turn.key],
{
}

/// A session is active when bytes or an end of stream come from a side of it, and
/// when a side of it takes what is written. It is then active now, and otherwise
/// as long ago as it was. Its server never changes.
pub proof fn law_activity_is_noticed(proxy: ProxyModel, turn: Turn, reply: ReplyModel, now: u64)
    requires
        proxy.sessions.contains_key(turn.key),
    ensures
        ({
            let before = proxy.sessions[turn.key];
            let after = proxy.session_after(turn, reply, now);
            let next = proxy.next_turn(turn, reply, now);
            let passes = (reply is Read && reply->Read_0 is Received) || (reply is Written
                && reply->Written_0 is Wrote);
            &&& passes ==> after.last_activity == now
            &&& !passes ==> after.last_activity == before.last_activity
            &&& next.active <==> turn.active || passes
            &&& next.key == turn.key
            &&& next.side == turn.side
            &&& after.session_backend == before.session_backend
        }),
{
}

/// Every byte that is read is counted, and nothing else is. The count starts over
/// once it can go no further.
pub proof fn law_every_byte_read_is_counted(
    proxy: ProxyModel,
    turn: Turn,
    reply: ReplyModel,
    now: u64,
    bytes: Seq<u8>,
)
    requires
        proxy.sessions.contains_key(turn.key),
        bytes.len() <= usize::MAX,
    ensures
        ({
            let before = proxy.total_throughput;
            let after = proxy.resumed(turn, reply, now).total_throughput;
            &&& reply == ReplyModel::Read(ReadModel::Received(bytes)) ==> after == before
                + bytes.len() || after == before + bytes.len() - usize::MAX - 1
            &&& !(reply is Read && reply->Read_0 is Received) ==> after == before
        }),
{
}

/// While a turn goes on, and after one in which nothing has passed, the sessions
/// keep their order. At the end of one in which something has, its session
/// stands behind all others, which keep theirs. A session that is closed leaves
/// the others as they stood.
pub proof fn law_active_sessions_go_to_the_back(
    proxy: ProxyModel,
    turn: Turn,
    reply: ReplyModel,
    now: u64,
    front: Seq<usize>,
    back: Seq<usize>,
)
    requires
        proxy.consistent(),
        proxy.order == front.push(turn.key) + back,
    ensures
        ({
            let next = proxy.next_turn(turn, reply, now);
            let after = proxy.resumed(turn, reply, now);
            &&& next.stage is Closed ==> after.order == front + back
            &&& next.stage is Register && next.active ==> after.order == (front + back).push(
                turn.key,
            )
            &&& !(next.stage is Closed) && !(next.stage is Register && next.active) ==> after.order
                == proxy.order
            &&& after.is_shutting_down == proxy.is_shutting_down
        }),
{
    lemma_taken_out(proxy.order, turn.key, front, back);
}

proof fn lemma_taken_out(order: Seq<usize>, key: usize, front: Seq<usize>, back: Seq<usize>)
    requires
        order.no_duplicates(),
        order == front.push(key) + back,
    ensures
        without(order, key) == front + back,
{
    let place = front.len() as int;
    assert(order[place] == key);
    assert(order.contains(key));
    assert(order[order.index_of(key)] == key);
    assert(order.index_of(key) == place);
    assert(order.remove(place) =~= front + back);
}

/// A session that is opened stands behind all others, counts for one, and is as
/// fresh as can be.
pub proof fn law_opened_sessions_stand_last(
    proxy: ProxyModel,
    key: usize,
    backend: SocketAddress,
    now: u64,
)
    requires
        proxy.num_connections < usize::MAX,
    ensures
        ({
            let after = proxy.opened(key, backend, now);
            let session = after.sessions[key];
            &&& after.sessions.dom() == proxy.sessions.dom().insert(key)
            &&& session.session_backend == backend
            &&& session.last_activity == now
            &&& session.relay.client_buffer.len() == 0
            &&& session.relay.server_buffer.len() == 0
            &&& !session.relay.client_closed
            &&& !session.relay.server_closed
            &&& after.order == proxy.order.push(key)
            &&& after.num_connections == proxy.num_connections + 1
            &&& after.total_throughput == proxy.total_throughput
            &&& after.is_shutting_down == proxy.is_shutting_down
        }),
{
    assert(proxy.opened(key, backend, now).sessions.dom() =~= proxy.sessions.dom().insert(key));
}

/// A session that is closed is gone, and the others stand as they stood.
pub proof fn law_closed_sessions_are_gone(
    proxy: ProxyModel,
    key: usize,
    front: Seq<usize>,
    back: Seq<usize>,
)
    requires
        proxy.consistent(),
        proxy.order == front.push(key) + back,
    ensures
        ({
            let after = proxy.closed(key);
            &&& after.sessions == proxy.sessions.remove(key)
            &&& after.order == front + back
            &&& after.num_connections == proxy.num_connections - 1
            &&& after.total_throughput == proxy.total_throughput
            &&& after.is_shutting_down == proxy.is_shutting_down
        }),
{
    lemma_taken_out(proxy.order, key, front, back);
}

/// The count of a server goes down by one when a turn closes a session on it, and
/// stays as it is otherwise. A server that is not known is not counted for, and a
/// count starts over below nothing.
pub proof fn law_turns_count_the_sessions_they_close(
    table: Map<SocketAddress, usize>,
    stage: Stage,
    server: SocketAddress,
)
    ensures
        ({
            let after = table_entered(table, stage);
            let ends_here = stage == Stage::Closed { backend: server };
            &&& after.contains_key(server) <==> table.contains_key(server)
            &&& !ends_here ==> after[server] == table[server]
            &&& ends_here && table.contains_key(server) && table[server] > 0 ==> after[server]
                == table[server] - 1
            &&& ends_here && table.contains_key(server) && table[server] == 0 ==> after[server]
                == usize::MAX
        }),
{
}

/// A session is idle for too long just when more than thirty seconds have passed
/// since it was last active, whenever that was.
pub proof fn law_idle_means_more_than_thirty_seconds(proxy: ProxyModel, key: usize, now: u64)
    ensures
        IDLE_TIMEOUT == 30 * 1_000_000_000,
        proxy.idle(key, now) <==> now > proxy.sessions[key].last_activity + IDLE_TIMEOUT,
{
}

/// A session on which nothing has passed since it was opened is idle for too long
/// once, and only once, more than thirty seconds have passed.
pub proof fn law_untouched_sessions_expire(
    proxy: ProxyModel,
    key: usize,
    backend: SocketAddress,
    opened_at: u64,
    now: u64,
)
    ensures
        proxy.opened(key, backend, opened_at).idle(key, now) <==> now > opened_at + 30_000_000_000,
{
}

/// Something that passes in a session keeps it from being idle for too long in
/// the thirty seconds that follow, and no longer.
pub proof fn law_activity_puts_expiry_off(
    proxy: ProxyModel,
    turn: Turn,
    reply: ReplyModel,
    active_at: u64,
    now: u64,
)
    requires
        proxy.sessions.contains_key(turn.key),
        (reply is Read && reply->Read_0 is Received) || (reply is Written
            && reply->Written_0 is Wrote),
        !(proxy.next_turn(turn, reply, active_at).stage is Closed),
    ensures
        proxy.resumed(turn, reply, active_at).idle(turn.key, now) <==> now > active_at
            + 30_000_000_000,
{
}

/// Whatever comes of the operation that a stage waits for can be replied.
pub proof fn law_every_outcome_can_be_replied(
    session: SessionModel,
    stage: Stage,
    read: ReadModel,
    written: WriteOutcome,
)
    ensures
        fits(session.relay, stage, ReplyModel::Read(read)) <==> stage is Read,
        fits(session.relay, stage, ReplyModel::Done) <==> stage is ShutdownAfterRead || stage
            is ShutdownServer || stage is ShutdownClient,
        fits(session.relay, stage, ReplyModel::Written(written)) <==> {
            ||| stage is WriteServer && (written is Wrote ==> written->Wrote_0
                <= session.relay.server_buffer.len())
            ||| stage is WriteClient && (written is Wrote ==> written->Wrote_0
                <= session.relay.client_buffer.len())
        },
{
}

/// Once both sides have ended their streams and each has taken all that was read
/// from the other, the session is closed with the turn: none is left open after
/// it.
pub proof fn law_ended_sessions_are_closed(
    backend: SocketAddress,
    opened_at: u64,
    happenings: Seq<Happening>,
)
    requires
        Life::fresh(backend, opened_at).all_possible(happenings),
        ({
            let life = Life::fresh(backend, opened_at).after_all(happenings);
            &&& life.stage is Register || life.stage is Closed
            &&& life.client.ended
            &&& life.server.ended
            &&& life.client.sent.len() == life.server.received.len()
            &&& life.server.sent.len() == life.client.received.len()
            &&& !life.client.write_failed
            &&& !life.server.write_failed
        }),
    ensures
        Life::fresh(backend, opened_at).after_all(happenings).stage == (Stage::Closed { backend }),
{
    law_sessions_deliver(backend, opened_at, happenings);
    let life = Life::fresh(backend, opened_at).after_all(happenings);
    assert(life.relays_to(Side::Client));
    assert(life.relays_to(Side::Server));
    assert(life.mirrors(Side::Client));
    assert(life.mirrors(Side::Server));
    lemma_backend_stays(backend, opened_at, happenings);
}

proof fn lemma_backend_stays(backend: SocketAddress, opened_at: u64, happenings: Seq<Happening>)
    ensures
        Life::fresh(backend, opened_at).after_all(happenings).session.session_backend == backend,
    decreases happenings.len(),
{
    if happenings.len() > 0 {
        lemma_backend_stays(backend, opened_at, happenings.drop_last());
    }
}

/// Where one side has ended its stream and nothing waits, the end of the other
/// side's stream closes the session: the readable event that announces it is
/// read, the peer is told, and the turn ends with the closing.
pub proof fn law_second_end_of_stream_closes(
    proxy: ProxyModel,
    key: usize,
    side: Side,
    read_at: u64,
    told_at: u64,
)
    requires
        proxy.consistent(),
        proxy.sessions.contains_key(key),
        proxy.sessions[key].relay.client_buffer.len() == 0,
        proxy.sessions[key].relay.server_buffer.len() == 0,
        proxy.sessions[key].relay.client_closed <==> side == Side::Server,
        proxy.sessions[key].relay.server_closed <==> side == Side::Client,
    ensures
        ({
            let turn = proxy.first_turn(key, side, true);
            let end = ReplyModel::Read(ReadModel::Received(Seq::empty()));
            let told = proxy.next_turn(turn, end, read_at);
            let between = proxy.resumed(turn, end, read_at);
            let last = between.next_turn(told, ReplyModel::Done, told_at);
            let after = between.resumed(told, ReplyModel::Done, told_at);
            &&& turn.stage is Read
            &&& told.stage is ShutdownAfterRead
            &&& last.stage == (Stage::Closed { backend: proxy.sessions[key].session_backend })
            &&& !after.sessions.contains_key(key)
            &&& after.num_connections == proxy.num_connections - 1
        }),
{
    assert(proxy.order.contains(key));
}

/// Clients are accepted, one after the other, until none waits or accepting fails,
/// and not at all once the proxy is shutting down. Each is sent to the healthy
/// server that serves the fewest sessions, if there is one, and one that cannot be
/// served keeps no other from being accepted.
pub proof fn law_clients_are_accepted(
    is_shutting_down: bool,
    table: Map<SocketAddress, usize>,
    healthy: Seq<SocketAddress>,
    event: AcceptEvent,
    action: AcceptAction,
)
    requires
        accept_follows(is_shutting_down, table, healthy, event, action),
    ensures
        action is Connect <==> event is Accepted && healthy.len() > 0,
        action is Stop <==> event is WouldBlock || event is Failed || (event is Ready
            && is_shutting_down),
        action matches AcceptAction::Connect(address) ==> {
            &&& healthy.contains(address)
            &&& forall|i: int|
                0 <= i < healthy.len() ==> table[address] <= table[#[trigger] healthy[i]]
        },
{
    law_picks_serve_the_fewest(table, healthy);
    if let AcceptAction::Connect(address) = action {
        let choice = choose|i: int|
            #[trigger] least_loaded(table, healthy, i) && healthy[i] == address;
        assert(least_loaded(table, healthy, choice));
        assert forall|i: int| 0 <= i < healthy.len() implies table[address]
            <= table[#[trigger] healthy[i]] by {
            assert(table[healthy[choice]] <= table[healthy[i]]);
        }
    }
}

/// After each event there is one thing to do at the listening socket, and only
/// one.
pub proof fn law_accepting_is_determined(
    is_shutting_down: bool,
    table: Map<SocketAddress, usize>,
    healthy: Seq<SocketAddress>,
    event: AcceptEvent,
)
    ensures
        exists|action: AcceptAction| #[trigger]
            accept_follows(is_shutting_down, table, healthy, event, action),
        forall|one: AcceptAction, other: AcceptAction|
            #![trigger accept_follows(is_shutting_down, table, healthy, event, one),
                accept_follows(is_shutting_down, table, healthy, event, other)]
            accept_follows(is_shutting_down, table, healthy, event, one) && accept_follows(
                is_shutting_down,
                table,
                healthy,
                event,
                other,
            ) ==> one == other,
{
    law_picks_serve_the_fewest(table, healthy);
    let action = match event {
        AcceptEvent::Ready if is_shutting_down => AcceptAction::Stop,
        AcceptEvent::Accepted if healthy.len() > 0 => {
            let choice = choose|i: int| least_loaded(table, healthy, i);
            AcceptAction::Connect(healthy[choice])
        },
        AcceptEvent::WouldBlock | AcceptEvent::Failed => AcceptAction::Stop,
        _ => AcceptAction::Accept,
    };
    assert(accept_follows(is_shutting_down, table, healthy, event, action));
    assert forall|one: AcceptAction, other: AcceptAction|
        #![trigger accept_follows(is_shutting_down, table, healthy, event, one),
            accept_follows(is_shutting_down, table, healthy, event, other)]
        accept_follows(is_shutting_down, table, healthy, event, one) && accept_follows(
            is_shutting_down,
            table,
            healthy,
            event,
            other,
        ) implies one == other by {
        if one is Connect && other is Connect {
            let a = choose|i: int|
                #[trigger] least_loaded(table, healthy, i) && healthy[i] == one->Connect_0;
            let b = choose|i: int|
                #[trigger] least_loaded(table, healthy, i) && healthy[i] == other->Connect_0;
            law_pick_is_determined(table, healthy, a, b);
        }
    }
}

/// A proxy is done just when it has been shut down and counts no connection.
pub proof fn law_proxies_are_done_when_drained(proxy: ProxyModel)
    requires
        proxy.consistent(),
    ensures
        proxy.done() <==> proxy.is_shutting_down && proxy.num_connections == 0,
{
    law_connections_are_sessions(proxy);
    if proxy.num_connections == 0 {
        assert(proxy.sessions.dom() =~= Set::<usize>::empty());
    }
}

} // verus!
