//! What one step of a turn of the eager proxy does, told by the state of the
//! session before and after it.

use vstd::prelude::*;
use crate::address::SocketAddress;
use crate::eager::{
    eager_accept_action, eager_fits, eager_interest, EagerAcceptAction, EagerAcceptEvent,
    EagerModel, EagerStage, EagerTurn,
};
use crate::eager_delivery::{law_eager_sessions_deliver, EagerHappening, EagerLife};
use crate::registry::Interest;
use crate::relay::{ReadModel, RelayModel, ReplyModel, Side, WriteOutcome};

verus! {

/// A readable event begins with a read. One that is only writable begins with a
/// write to the side that it came from, if bytes wait for it. Any other is over at
/// once, and closes the session just when neither side sends any more and nothing
/// waits for either.
pub proof fn law_eager_events_begin_with_what_is_ready(
    proxy: EagerModel,
    key: usize,
    side: Side,
    readable: bool,
    writable: bool,
)
    requires
        proxy.sessions.contains_key(key),
    ensures
        ({
            let turn = proxy.first_turn(key, side, readable, writable);
            let after = proxy.entered(turn);
            let relay = proxy.sessions[key];
            let waits = match side {
                Side::Client => relay.client_buffer.len() > 0,
                Side::Server => relay.server_buffer.len() > 0,
            };
            let finished = relay.client_closed && relay.server_closed && relay.client_buffer.len()
                == 0 && relay.server_buffer.len() == 0;
            &&& turn.key == key
            &&& turn.side == side
            &&& turn.writable == writable
            &&& turn.stage is Read <==> readable
            &&& turn.stage is Flush <==> !readable && writable && waits
            &&& turn.stage is Closed <==> !readable && finished
            &&& turn.stage is Over <==> !readable && !(writable && waits) && !finished
            &&& !(turn.stage is Closed) ==> after == proxy
        }),
{
}

/// A turn closes its session only at its end, and then just when neither side
/// sends any more and nothing waits for either. The session is then gone, and no
/// other is.
pub proof fn law_finished_eager_sessions_are_closed(
    proxy: EagerModel,
    turn: EagerTurn,
    reply: ReplyModel,
)
    requires
        proxy.consistent(),
        proxy.sessions.contains_key(turn.key),
        eager_fits(proxy.sessions[turn.key], turn.side, turn.stage, reply),
    ensures
        ({
            let next = proxy.next_turn(turn, reply).stage;
            let relay = proxy.relay_after(turn, reply);
            let after = proxy.resumed(turn, reply);
            let finished = relay.client_closed && relay.server_closed && relay.client_buffer.len()
                == 0 && relay.server_buffer.len() == 0;
            &&& next is Closed || next is Over ==> (next is Closed <==> finished)
            &&& next is Closed ==> {
                &&& after.sessions == proxy.sessions.remove(turn.key)
                &&& after.backends == proxy.backends.remove(turn.key)
                &&& after.num_connections == proxy.num_connections - 1
            }
            &&& !(next is Closed) ==> {
                &&& after.sessions == proxy.sessions.insert(turn.key, relay)
                &&& after.backends == proxy.backends
                &&& after.num_connections == proxy.num_connections
            }
            &&& after.cursor == proxy.cursor
            &&& after.is_shutting_down == proxy.is_shutting_down
        }),
{
    let after = proxy.resumed(turn, reply);
    if proxy.next_turn(turn, reply).stage is Closed {
        vstd::set::axiom_set_remove_len(proxy.sessions.dom(), turn.key);
        assert(after.sessions =~= proxy.sessions.remove(turn.key));
    }
}

/// The bytes of a read are written to the other side at once, and again while it
/// takes some and more wait. Then the side is read from again.
pub proof fn law_eager_reads_are_pushed(proxy: EagerModel, turn: EagerTurn, reply: ReplyModel)
    requires
        proxy.sessions.contains_key(turn.key),
        eager_fits(proxy.sessions[turn.key], turn.side, turn.stage, reply),
    ensures
        ({
            let next = proxy.next_turn(turn, reply).stage;
            let relay = proxy.relay_after(turn, reply);
            let (waits, ended) = match turn.side {
                Side::Client => (relay.server_buffer.len() > 0, relay.client_closed),
                Side::Server => (relay.client_buffer.len() > 0, relay.server_closed),
            };
            let came = reply is Read && reply->Read_0 is Received
                && reply->Read_0->Received_0.len() > 0;
            let took = reply is Written && reply->Written_0 is Wrote && reply->Written_0->Wrote_0
                > 0;
            &&& next is Push <==> {
                ||| turn.stage is Read && came
                ||| turn.stage is Push && took && waits
            }
            &&& next is ShutdownAfterPush <==> turn.stage is Push && took && !waits && ended
            &&& next is DeregisterAfterPush <==> turn.stage is ShutdownAfterPush
            &&& next is RegisterAfterPush <==> {
                ||| turn.stage is DeregisterAfterPush
                ||| turn.stage is Push && !(took && waits) && !(took && ended)
            }
            &&& next is Read <==> turn.stage is RegisterAfterPush
        }),
{
}

/// At the end of a stream the other side is told and the ended one deregistered,
/// if nothing waits for the other. Otherwise the other is registered for writing
/// too, so that it gets what waits.
pub proof fn law_eager_ends_are_passed_on(proxy: EagerModel, turn: EagerTurn, reply: ReplyModel)
    requires
        proxy.sessions.contains_key(turn.key),
        eager_fits(proxy.sessions[turn.key], turn.side, turn.stage, reply),
    ensures
        ({
            let next = proxy.next_turn(turn, reply).stage;
            let relay = proxy.relay_after(turn, reply);
            let waits = match turn.side {
                Side::Client => relay.server_buffer.len() > 0,
                Side::Server => relay.client_buffer.len() > 0,
            };
            let ends = turn.stage is Read && reply is Read && reply->Read_0 is Received
                && reply->Read_0->Received_0.len() == 0;
            &&& next is ShutdownAtEnd <==> ends && !waits
            &&& next is DeregisterAtEnd <==> turn.stage is ShutdownAtEnd
            &&& next is RegisterAtEnd <==> ends && waits
            &&& next matches EagerStage::RegisterAtEnd(interest) ==> interest
                == Interest::ReadableWritable
        }),
{
}

/// Once nothing more is read, and if the event says so, the side is written to
/// while bytes wait for it and it takes some. When it has taken the last of them
/// it is told if the other side has ended its stream. A side that takes none of
/// them has the other told, if nothing waits for the other, and is deregistered.
pub proof fn law_eager_bytes_that_wait_are_flushed(
    proxy: EagerModel,
    turn: EagerTurn,
    reply: ReplyModel,
)
    requires
        proxy.sessions.contains_key(turn.key),
        eager_fits(proxy.sessions[turn.key], turn.side, turn.stage, reply),
    ensures
        ({
            let next = proxy.next_turn(turn, reply).stage;
            let relay = proxy.relay_after(turn, reply);
            let (waits, waits_for_other, other_ended) = match turn.side {
                Side::Client => (
                    relay.client_buffer.len() > 0,
                    relay.server_buffer.len() > 0,
                    relay.server_closed,
                ),
                Side::Server => (
                    relay.server_buffer.len() > 0,
                    relay.client_buffer.len() > 0,
                    relay.client_closed,
                ),
            };
            let wrote = turn.stage is Flush && reply is Written && reply->Written_0 is Wrote;
            let took = wrote && reply->Written_0->Wrote_0 > 0;
            let refused = wrote && reply->Written_0->Wrote_0 == 0;
            let reads_are_over = {
                ||| turn.stage is Read && reply is Read && !(reply->Read_0 is Received)
                ||| turn.stage is DeregisterAtEnd
                ||| turn.stage is RegisterAtEnd
                ||| turn.stage is DeregisterAfterFlush
                ||| turn.stage is RegisterAfterFlush
            };
            &&& next is Flush <==> reads_are_over && turn.writable && waits
            &&& next is ShutdownAfterFlush <==> took && !waits && other_ended
            &&& next is RegisterAfterFlush <==> took && (waits || !other_ended)
            &&& next is DeregisterAfterFlush <==> turn.stage is ShutdownAfterFlush
            &&& next is ShutdownOnRefusal <==> refused && !waits_for_other
            &&& next is DeregisterOnRefusal <==> turn.stage is ShutdownOnRefusal
            &&& next is Over || next is Closed <==> {
                ||| reads_are_over && !(turn.writable && waits)
                ||| turn.stage is Flush && !wrote
                ||| refused && waits_for_other
                ||| turn.stage is DeregisterOnRefusal
            }
        }),
{
}

/// A socket that is registered anew is watched for reading, and for writing just
/// when bytes wait for it.
pub proof fn law_eager_sockets_are_watched(proxy: EagerModel, turn: EagerTurn, reply: ReplyModel)
    requires
        proxy.sessions.contains_key(turn.key),
        eager_fits(proxy.sessions[turn.key], turn.side, turn.stage, reply),
    ensures
        ({
            let next = proxy.next_turn(turn, reply);
            let relay = proxy.relay_after(turn, reply);
            let (waits, waits_for_other) = match turn.side {
                Side::Client => (relay.client_buffer.len() > 0, relay.server_buffer.len() > 0),
                Side::Server => (relay.server_buffer.len() > 0, relay.client_buffer.len() > 0),
            };
            &&& next.key == turn.key
            &&& next.side == turn.side
            &&& next.writable == turn.writable
            &&& next.stage matches EagerStage::RegisterAfterFlush(interest) ==> interest == (
            if waits {
                Interest::ReadableWritable
            } else {
                Interest::Readable
            })
            &&& next.stage matches EagerStage::RegisterAfterPush(interest) ==> interest == (
            if waits_for_other {
                Interest::ReadableWritable
            } else {
                Interest::Readable
            })
        }),
{
}

/// What a side is watched for follows from what waits for it alone.
pub proof fn law_eager_interest_follows_what_waits(relay: RelayModel)
    ensures
        eager_interest(relay, Side::Client) == Interest::Readable <==> relay.client_buffer.len()
            == 0,
        eager_interest(relay, Side::Server) == Interest::Readable <==> relay.server_buffer.len()
            == 0,
        eager_interest(relay, Side::Client) != Interest::Writable,
        eager_interest(relay, Side::Server) != Interest::Writable,
{
}

/// What a read brings waits for the other side, behind what waited before. An end
/// of stream closes the side that was read from. Nothing else about the bytes
/// changes, and a failure changes nothing at all.
pub proof fn law_eager_reads_pass_on_what_they_bring(
    proxy: EagerModel,
    turn: EagerTurn,
    outcome: ReadModel,
)
    requires
        proxy.sessions.contains_key(turn.key),
        turn.stage is Read,
    ensures
        ({
            let before = proxy.sessions[turn.key];
            let after = proxy.relay_after(turn, ReplyModel::Read(outcome));
            let bytes = match outcome {
                ReadModel::Received(bytes) => bytes,
                _ => Seq::empty(),
            };
            let ends = outcome is Received && bytes.len() == 0;
            match turn.side {
                Side::Client => {
                    &&& after.server_buffer == before.server_buffer + bytes
                    &&& after.client_buffer == before.client_buffer
                    &&& after.client_closed <==> before.client_closed || ends
                    &&& after.server_closed == before.server_closed
                },
                Side::Server => {
                    &&& after.client_buffer == before.client_buffer + bytes
                    &&& after.server_buffer == before.server_buffer
                    &&& after.server_closed <==> before.server_closed || ends
                    &&& after.client_closed == before.client_closed
                },
            }
        }),
{
    let before = proxy.sessions[turn.key];
    assert(before.client_buffer + Seq::<u8>::empty() =~= before.client_buffer);
    assert(before.server_buffer + Seq::<u8>::empty() =~= before.server_buffer);
    if let ReadModel::Received(bytes) = outcome {
        if bytes.len() == 0 {
            assert(bytes =~= Seq::<u8>::empty());
        }
    }
}

/// The bytes that a side takes leave from the front of those that wait for it, and
/// none leave otherwise. A side that takes none of the bytes that are flushed to
/// it is closed. Nothing else changes.
pub proof fn law_eager_writes_take_from_the_front(
    proxy: EagerModel,
    turn: EagerTurn,
    outcome: WriteOutcome,
)
    requires
        proxy.sessions.contains_key(turn.key),
        turn.stage is Push || turn.stage is Flush,
        eager_fits(
            proxy.sessions[turn.key],
            turn.side,
            turn.stage,
            ReplyModel::Written(outcome),
        ),
    ensures
        ({
            let before = proxy.sessions[turn.key];
            let after = proxy.relay_after(turn, ReplyModel::Written(outcome));
            let to_client = (turn.stage is Push) == (turn.side == Side::Server);
            let taken = match outcome {
                WriteOutcome::Wrote(count) => count as int,
                _ => 0,
            };
            let refused = turn.stage is Flush && outcome == WriteOutcome::Wrote(0);
            &&& if to_client {
                &&& taken <= before.client_buffer.len()
                &&& before.client_buffer.take(taken) + after.client_buffer == before.client_buffer
                &&& after.server_buffer == before.server_buffer
            } else {
                &&& taken <= before.server_buffer.len()
                &&& before.server_buffer.take(taken) + after.server_buffer == before.server_buffer
                &&& after.client_buffer == before.client_buffer
            }
            &&& after.client_closed <==> before.client_closed || (refused && turn.side
                == Side::Client)
            &&& after.server_closed <==> before.server_closed || (refused && turn.side
                == Side::Server)
        }),
{
    let before = proxy.sessions[turn.key];
    let taken = match outcome {
        WriteOutcome::Wrote(count) => count as int,
        _ => 0,
    };
    if taken <= before.client_buffer.len() {
        assert(before.client_buffer.take(taken) + before.client_buffer.skip(taken)
            =~= before.client_buffer);
        assert(taken == 0 ==> before.client_buffer.skip(taken) =~= before.client_buffer);
    }
    if taken <= before.server_buffer.len() {
        assert(before.server_buffer.take(taken) + before.server_buffer.skip(taken)
            =~= before.server_buffer);
        assert(taken == 0 ==> before.server_buffer.skip(taken) =~= before.server_buffer);
    }
}

/// Shutting down, registering and deregistering change nothing about the bytes.
pub proof fn law_eager_housekeeping_changes_no_bytes(proxy: EagerModel, turn: EagerTurn)
    requires
        proxy.sessions.contains_key(turn.key),
    ensures
        proxy.relay_after(turn, ReplyModel::Done) == proxy.sessions[turn.key],
{
}

/// Every byte that is read is counted, and nothing else is. The count starts over
/// once it can go no further.
pub proof fn law_eager_throughput_counts_every_byte(
    proxy: EagerModel,
    turn: EagerTurn,
    reply: ReplyModel,
    bytes: Seq<u8>,
)
    requires
        proxy.sessions.contains_key(turn.key),
        bytes.len() <= usize::MAX,
    ensures
        ({
            let before = proxy.total_throughput;
            let after = proxy.resumed(turn, reply).total_throughput;
            &&& reply == ReplyModel::Read(ReadModel::Received(bytes)) ==> after == before
                + bytes.len() || after == before + bytes.len() - usize::MAX - 1
            &&& !(reply is Read && reply->Read_0 is Received) ==> after == before
        }),
{
}

/// A session that is opened counts for one, on its server, with nothing waiting
/// and both sides open.
pub proof fn law_opened_eager_sessions_are_counted(
    proxy: EagerModel,
    key: usize,
    backend: SocketAddress,
)
    requires
        proxy.num_connections < usize::MAX,
    ensures
        ({
            let after = proxy.opened(key, backend);
            &&& after.sessions.dom() == proxy.sessions.dom().insert(key)
            &&& after.sessions[key].client_buffer.len() == 0
            &&& after.sessions[key].server_buffer.len() == 0
            &&& !after.sessions[key].client_closed
            &&& !after.sessions[key].server_closed
            &&& after.backends == proxy.backends.insert(key, backend)
            &&& after.num_connections == proxy.num_connections + 1
            &&& after.total_throughput == proxy.total_throughput
            &&& after.cursor == proxy.cursor
            &&& after.is_shutting_down == proxy.is_shutting_down
        }),
{
    assert(proxy.opened(key, backend).sessions.dom() =~= proxy.sessions.dom().insert(key));
}

/// Whatever comes of the operation that a stage waits for can be replied.
pub proof fn law_every_eager_outcome_can_be_replied(
    relay: RelayModel,
    side: Side,
    stage: EagerStage,
    read: ReadModel,
    written: WriteOutcome,
)
    ensures
        eager_fits(relay, side, stage, ReplyModel::Read(read)) <==> stage is Read,
        eager_fits(relay, side, stage, ReplyModel::Done) <==> !(stage is Read || stage is Push
            || stage is Flush || stage is Over || stage is Closed),
        eager_fits(relay, side, stage, ReplyModel::Written(written)) <==> {
            &&& stage is Push || stage is Flush
            &&& written is Wrote ==> {
                let to_client = (stage is Push) == (side == Side::Server);
                written->Wrote_0 <= (if to_client {
                    relay.client_buffer.len()
                } else {
                    relay.server_buffer.len()
                })
            }
        },
{
}

/// Once both sides have ended their streams and each has taken all that was read
/// from the other, the session is closed with the turn.
pub proof fn law_ended_eager_sessions_are_closed(happenings: Seq<EagerHappening>)
    requires
        EagerLife::fresh().all_possible(happenings),
        ({
            let life = EagerLife::fresh().after_all(happenings);
            &&& life.stage is Over || life.stage is Closed
            &&& life.client.ended
            &&& life.server.ended
            &&& life.client.sent.len() == life.server.received.len()
            &&& life.server.sent.len() == life.client.received.len()
        }),
    ensures
        EagerLife::fresh().after_all(happenings).stage is Closed,
{
    law_eager_sessions_deliver(happenings);
    let life = EagerLife::fresh().after_all(happenings);
    assert(life.relays_to(Side::Client));
    assert(life.relays_to(Side::Server));
    assert(life.mirrors(Side::Client));
    assert(life.mirrors(Side::Server));
}

/// Clients are accepted until none waits, and not at all once the proxy is shutting
/// down. Each is sent to a healthy server, if there is one, and one that cannot be
/// served keeps no other from being accepted.
pub proof fn law_eager_clients_are_accepted(
    is_shutting_down: bool,
    healthy: Seq<SocketAddress>,
    cursor: usize,
    event: EagerAcceptEvent,
)
    ensures
        ({
            let action = eager_accept_action(is_shutting_down, healthy, cursor, event);
            &&& action is Connect <==> event is Accepted && healthy.len() > 0
            &&& action is Stop <==> event is WouldBlock || (event is Ready && is_shutting_down)
            &&& action matches EagerAcceptAction::Connect(address) ==> healthy.contains(address)
        }),
{
}

/// The servers get the clients in turn: the first pick is the first server of the
/// list, each pick is followed by the next server of the list, and the last server
/// by the first.
pub proof fn law_eager_clients_go_round(
    is_shutting_down: bool,
    healthy: Seq<SocketAddress>,
    cursor: usize,
    place: int,
)
    requires
        0 <= place < healthy.len(),
        cursor < usize::MAX,
        cursor as int % healthy.len() as int == place,
    ensures
        eager_accept_action(is_shutting_down, healthy, 0, EagerAcceptEvent::Accepted)
            == EagerAcceptAction::Connect(healthy[0]),
        eager_accept_action(is_shutting_down, healthy, cursor, EagerAcceptEvent::Accepted)
            == EagerAcceptAction::Connect(healthy[place]),
        eager_accept_action(
            is_shutting_down,
            healthy,
            (cursor + 1) as usize,
            EagerAcceptEvent::Accepted,
        ) == EagerAcceptAction::Connect(
            if place + 1 < healthy.len() {
                healthy[place + 1]
            } else {
                healthy[0]
            },
        ),
{
    let count = healthy.len() as int;
    vstd::arithmetic::div_mod::lemma_small_mod(0, healthy.len());
    vstd::arithmetic::div_mod::lemma_add_mod_noop(cursor as int, 1, count);
    if count == 1 {
        vstd::arithmetic::div_mod::lemma_mod_self_0(count);
    } else {
        vstd::arithmetic::div_mod::lemma_small_mod(1, healthy.len());
    }
    if place + 1 < count {
        vstd::arithmetic::div_mod::lemma_small_mod((place + 1) as nat, healthy.len());
    } else {
        vstd::arithmetic::div_mod::lemma_mod_self_0(count);
    }
}

/// A proxy is done just when it has been shut down and counts no connection.
pub proof fn law_eager_proxies_are_done_when_drained(proxy: EagerModel)
    requires
        proxy.consistent(),
    ensures
        proxy.done() <==> proxy.is_shutting_down && proxy.num_connections == 0,
{
    if proxy.num_connections == 0 {
        assert(proxy.sessions.dom() =~= Set::<usize>::empty());
    }
}

} // verus!
