//! What the phased proxy keeps in order while sessions come and go: which
//! session was active longest ago, how many sessions each server serves, and
//! that every server a client may be sent to is known.

use vstd::prelude::*;
use crate::address::SocketAddress;
use crate::phased::{
    law_connections_are_sessions, table_entered, ProxyModel, Turn, IDLE_TIMEOUT,
};
use crate::recency::{lemma_without, moved_to_tail, without};
use crate::relay::{ReplyModel, Side};
use crate::servers::{answering, with_servers, with_session_begun, with_session_ended};
use crate::tokens::{law_events_reach_their_session, route, session_token, Route};

verus! {

/// When a session was last active.
pub open spec fn active_at(proxy: ProxyModel, key: usize) -> u64 {
    proxy.sessions[key].last_activity
}

/// Keys in an order in which no session was active later than one behind it.
pub open spec fn in_order_of_activity(proxy: ProxyModel, keys: Seq<usize>) -> bool {
    forall|i: int, j: int|
        0 <= i < j < keys.len() ==> active_at(proxy, #[trigger] keys[i]) <= active_at(
            proxy,
            #[trigger] keys[j],
        )
}

/// The session that was active longest ago comes first.
pub open spec fn longest_idle_first(proxy: ProxyModel) -> bool {
    in_order_of_activity(proxy, proxy.order)
}

/// Every activity lies in the past.
pub open spec fn clock_has_reached(proxy: ProxyModel, now: u64) -> bool {
    forall|key: usize| #[trigger]
        proxy.sessions.contains_key(key) ==> active_at(proxy, key) <= now
}

/// While a turn goes on, its session may stand before others that were active
/// earlier. Once the turn is over, the session that was active longest ago comes
/// first again.
pub open spec fn in_order_but_for(proxy: ProxyModel, turn: Turn) -> bool {
    if turn.stage is Register || turn.stage is Closed || !turn.active {
        longest_idle_first(proxy)
    } else {
        &&& in_order_of_activity(proxy, without(proxy.order, turn.key))
        &&& forall|key: usize| #[trigger]
            proxy.sessions.contains_key(key) ==> active_at(proxy, key)
                <= active_at(proxy, turn.key)
    }
}

proof fn lemma_closed_in_order(proxy: ProxyModel, key: usize)
    requires
        proxy.consistent(),
        proxy.sessions.contains_key(key),
        in_order_of_activity(proxy, without(proxy.order, key)),
    ensures
        longest_idle_first(proxy.closed(key)),
{
    lemma_without(proxy.order, key);
    let rest = without(proxy.order, key);
    let after = proxy.closed(key);
    assert forall|i: int, j: int| 0 <= i < j < rest.len()
        implies active_at(after, #[trigger] rest[i])
        <= active_at(after, #[trigger] rest[j]) by {
        assert(rest.contains(rest[i]));
        assert(rest.contains(rest[j]));
    }
}

proof fn lemma_without_in_order(proxy: ProxyModel, key: usize)
    requires
        proxy.consistent(),
        proxy.sessions.contains_key(key),
        longest_idle_first(proxy),
    ensures
        in_order_of_activity(proxy, without(proxy.order, key)),
{
    lemma_without(proxy.order, key);
    let rest = without(proxy.order, key);
    let place = proxy.order.index_of(key);
    assert forall|i: int, j: int| 0 <= i < j < rest.len()
        implies active_at(proxy, #[trigger] rest[i])
        <= active_at(proxy, #[trigger] rest[j]) by {
        let a = if i < place { i } else { i + 1 };
        let b = if j < place { j } else { j + 1 };
        assert(rest[i] == proxy.order[a]);
        assert(rest[j] == proxy.order[b]);
    }
}

pub(crate) proof fn lemma_replied_consistent(
    proxy: ProxyModel,
    turn: Turn,
    reply: ReplyModel,
    now: u64,
)
    requires
        proxy.consistent(),
        proxy.sessions.contains_key(turn.key),
    ensures
        proxy.replied(turn, reply, now).consistent(),
{
    let after = proxy.replied(turn, reply, now);
    assert forall|key: usize| #[trigger] after.sessions.contains_key(key) implies {
        &&& after.order.contains(key)
        &&& key < usize::MAX / 2
    } by {
        assert(proxy.sessions.contains_key(key));
    }
    assert forall|key: usize| after.order.contains(key)
        implies after.sessions.contains_key(key) by {
        assert(proxy.sessions.contains_key(key));
    }
}

/// Opening a session keeps the one that was active longest ago first.
pub proof fn law_opening_keeps_order(
    proxy: ProxyModel,
    key: usize,
    backend: SocketAddress,
    now: u64,
)
    requires
        proxy.consistent(),
        !proxy.sessions.contains_key(key),
        longest_idle_first(proxy),
        clock_has_reached(proxy, now),
    ensures
        longest_idle_first(proxy.opened(key, backend, now)),
        clock_has_reached(proxy.opened(key, backend, now), now),
{
    let after = proxy.opened(key, backend, now);
    assert forall|i: int, j: int| 0 <= i < j < after.order.len()
        implies active_at(after, #[trigger] after.order[i])
        <= active_at(after, #[trigger] after.order[j]) by {
        assert(proxy.order.contains(proxy.order[i]));
        assert(proxy.sessions.contains_key(proxy.order[i]));
        if j < proxy.order.len() {
            assert(proxy.order.contains(proxy.order[j]));
        }
    }
}

/// Beginning a turn keeps the session that was active longest ago first.
pub proof fn law_beginning_keeps_order(proxy: ProxyModel, key: usize, side: Side, readable: bool)
    requires
        proxy.consistent(),
        proxy.sessions.contains_key(key),
        longest_idle_first(proxy),
    ensures
        in_order_but_for(
            proxy.entered(proxy.first_turn(key, side, readable)),
            proxy.first_turn(key, side, readable),
        ),
{
    lemma_without_in_order(proxy, key);
    lemma_closed_in_order(proxy, key);
}

/// Going on with a turn keeps the order but for the session of the turn, and
/// once the turn is over the session that was active longest ago comes first.
pub proof fn law_resuming_keeps_order(proxy: ProxyModel, turn: Turn, reply: ReplyModel, now: u64)
    requires
        proxy.consistent(),
        proxy.sessions.contains_key(turn.key),
        !(turn.stage is Register || turn.stage is Closed),
        in_order_but_for(proxy, turn),
        clock_has_reached(proxy, now),
    ensures
        in_order_but_for(proxy.resumed(turn, reply, now), proxy.next_turn(turn, reply, now)),
        clock_has_reached(proxy.resumed(turn, reply, now), now),
{
    let key = turn.key;
    let next = proxy.next_turn(turn, reply, now);
    let middle = proxy.replied(turn, reply, now);
    lemma_replied_consistent(proxy, turn, reply, now);
    assert(proxy.order.contains(key));
    lemma_without(proxy.order, key);
    let rest = without(proxy.order, key);
    if !turn.active {
        lemma_without_in_order(proxy, key);
    }
    assert(in_order_of_activity(middle, rest)) by {
        assert forall|i: int, j: int| 0 <= i < j < rest.len()
            implies active_at(middle, #[trigger] rest[i])
            <= active_at(middle, #[trigger] rest[j]) by {
            assert(rest.contains(rest[i]));
            assert(rest.contains(rest[j]));
        }
    }
    assert forall|k: usize| #[trigger] middle.sessions.contains_key(k) implies active_at(middle, k)
        <= now by {
        assert(proxy.sessions.contains_key(k));
    }
    if next.active {
        assert forall|k: usize| #[trigger] middle.sessions.contains_key(k)
            implies active_at(middle, k)
            <= active_at(middle, key) by {
            assert(proxy.sessions.contains_key(k));
        }
    } else {
        assert(in_order_of_activity(middle, middle.order)) by {
            assert forall|i: int, j: int|
                0 <= i < j < proxy.order.len() implies active_at(middle, #[trigger] proxy.order[i])
                <= active_at(middle, #[trigger] proxy.order[j]) by {
                assert(active_at(proxy, proxy.order[i])
                    <= active_at(proxy, proxy.order[j]));
            }
        }
    }
    if next.stage is Closed {
        lemma_closed_in_order(middle, key);
    }
    if next.stage is Register && next.active {
        let after = proxy.resumed(turn, reply, now);
        let moved = moved_to_tail(proxy.order, key);
        assert(after.order == moved);
        assert forall|i: int, j: int| 0 <= i < j < moved.len()
            implies active_at(after, #[trigger] moved[i])
            <= active_at(after, #[trigger] moved[j]) by {
            assert(moved[i] == rest[i]);
            assert(rest.contains(rest[i]));
            assert(middle.sessions.contains_key(rest[i]));
            if j < rest.len() {
                assert(moved[j] == rest[j]);
            }
        }
    }
}

/// Closing the session that was active longest ago keeps the order of the rest.
pub proof fn law_expiring_keeps_order(proxy: ProxyModel)
    requires
        proxy.consistent(),
        proxy.order.len() > 0,
        longest_idle_first(proxy),
    ensures
        longest_idle_first(proxy.closed(proxy.order.first())),
{
    assert(proxy.order.contains(proxy.order[0]));
    lemma_without_in_order(proxy, proxy.order.first());
    lemma_closed_in_order(proxy, proxy.order.first());
}

/// Where the session that was active longest ago has not been idle for too long,
/// no session has: a sweep that stops there misses none.
pub proof fn law_sweep_misses_no_idle_session(proxy: ProxyModel, now: u64)
    requires
        proxy.consistent(),
        longest_idle_first(proxy),
        proxy.order.len() > 0 ==> !proxy.idle(proxy.order.first(), now),
    ensures
        forall|key: usize| #[trigger] proxy.sessions.contains_key(key) ==> !proxy.idle(key, now),
        forall|key: usize| #[trigger]
            proxy.sessions.contains_key(key) ==> now - proxy.sessions[key].last_activity
                <= IDLE_TIMEOUT,
{
    assert forall|key: usize| #[trigger] proxy.sessions.contains_key(key) implies !proxy.idle(
        key,
        now,
    ) && now - proxy.sessions[key].last_activity <= IDLE_TIMEOUT by {
        let i = proxy.order.index_of(key);
        assert(proxy.order[i] == key);
        if i > 0 {
            assert(active_at(proxy, proxy.order[0])
                <= active_at(proxy, proxy.order[i]));
        }
    }
}

/// How many sessions of the proxy a server serves.
pub open spec fn sessions_on(proxy: ProxyModel, address: SocketAddress) -> nat {
    proxy.sessions.dom().filter(
        |key: usize| proxy.sessions[key].session_backend == address,
    ).len()
}

/// The table counts the sessions of every server that it knows.
pub open spec fn counts_sessions(table: Map<SocketAddress, usize>, proxy: ProxyModel) -> bool {
    forall|address: SocketAddress| #[trigger]
        table.contains_key(address) ==> table[address] == sessions_on(proxy, address)
}

/// The keys of the sessions that a server serves.
spec fn keys_on(proxy: ProxyModel, address: SocketAddress) -> Set<usize> {
    proxy.sessions.dom().filter(|key: usize| proxy.sessions[key].session_backend == address)
}

/// Distinct keys below a bound are no more than the bound.
proof fn lemma_few_keys(order: Seq<usize>, bound: nat)
    requires
        order.no_duplicates(),
        forall|i: int| 0 <= i < order.len() ==> #[trigger] order[i] < bound,
    ensures
        order.len() <= bound,
    decreases bound,
{
    if bound == 0 {
        if order.len() > 0 {
            assert(order[0] < bound);
        }
    } else {
        let top = (bound - 1) as usize;
        if order.contains(top) {
            lemma_without(order, top);
            let rest = without(order, top);
            assert forall|i: int| 0 <= i < rest.len() implies #[trigger] rest[i] < bound - 1 by {
                assert(rest.contains(rest[i]));
                let j = order.index_of(rest[i]);
                assert(order[j] < bound);
            }
            lemma_few_keys(rest, (bound - 1) as nat);
        } else {
            assert forall|i: int| 0 <= i < order.len() implies #[trigger] order[i] < bound - 1 by {
                assert(order.contains(order[i]));
            }
            lemma_few_keys(order, (bound - 1) as nat);
        }
    }
}

proof fn lemma_keys_finite(proxy: ProxyModel, address: SocketAddress)
    requires
        proxy.consistent(),
    ensures
        proxy.sessions.dom().finite(),
        keys_on(proxy, address).finite(),
        keys_on(proxy, address).len() <= usize::MAX / 2,
{
    law_connections_are_sessions(proxy);
    vstd::set_lib::lemma_len_subset(keys_on(proxy, address), proxy.sessions.dom());
    assert forall|i: int| 0 <= i < proxy.order.len() implies #[trigger] proxy.order[i] < usize::MAX
        / 2 by {
        assert(proxy.order.contains(proxy.order[i]));
        assert(proxy.sessions.contains_key(proxy.order[i]));
    }
    lemma_few_keys(proxy.order, (usize::MAX / 2) as nat);
}

/// Opening a session keeps the counts of the servers right.
pub proof fn law_opening_is_counted(
    table: Map<SocketAddress, usize>,
    proxy: ProxyModel,
    key: usize,
    backend: SocketAddress,
    now: u64,
)
    requires
        proxy.consistent(),
        counts_sessions(table, proxy),
        table.contains_key(backend),
        !proxy.sessions.contains_key(key),
    ensures
        counts_sessions(with_session_begun(table, backend), proxy.opened(key, backend, now)),
{
    let after = proxy.opened(key, backend, now);
    let counted = with_session_begun(table, backend);
    assert forall|address: SocketAddress| #[trigger] counted.contains_key(address)
        implies counted[address]
        == sessions_on(after, address) by {
        lemma_keys_finite(proxy, address);
        assert(table.contains_key(address));
        if address == backend {
            assert(keys_on(after, address) =~= keys_on(proxy, address).insert(key));
        } else {
            assert(keys_on(after, address) =~= keys_on(proxy, address));
        }
    }
}

/// Closing a session keeps the counts of the servers right.
pub proof fn law_closing_is_counted(
    table: Map<SocketAddress, usize>,
    proxy: ProxyModel,
    key: usize,
)
    requires
        proxy.consistent(),
        counts_sessions(table, proxy),
        proxy.sessions.contains_key(key),
    ensures
        counts_sessions(
            with_session_ended(table, proxy.sessions[key].session_backend),
            proxy.closed(key),
        ),
{
    let backend = proxy.sessions[key].session_backend;
    let after = proxy.closed(key);
    let counted = with_session_ended(table, backend);
    assert forall|address: SocketAddress| #[trigger] counted.contains_key(address)
        implies counted[address]
        == sessions_on(after, address) by {
        lemma_keys_finite(proxy, address);
        assert(table.contains_key(address));
        if address == backend {
            assert(keys_on(proxy, address).contains(key));
            assert(keys_on(after, address) =~= keys_on(proxy, address).remove(key));
        } else {
            assert(keys_on(after, address) =~= keys_on(proxy, address));
        }
    }
}

/// Beginning a turn keeps the counts of the servers right.
pub proof fn law_beginning_is_counted(
    table: Map<SocketAddress, usize>,
    proxy: ProxyModel,
    key: usize,
    side: Side,
    readable: bool,
)
    requires
        proxy.consistent(),
        counts_sessions(table, proxy),
        proxy.sessions.contains_key(key),
    ensures
        ({
            let turn = proxy.first_turn(key, side, readable);
            counts_sessions(table_entered(table, turn.stage), proxy.entered(turn))
        }),
{
    law_closing_is_counted(table, proxy, key);
}

/// Going on with a turn keeps the counts of the servers right.
pub proof fn law_resuming_is_counted(
    table: Map<SocketAddress, usize>,
    proxy: ProxyModel,
    turn: Turn,
    reply: ReplyModel,
    now: u64,
)
    requires
        proxy.consistent(),
        counts_sessions(table, proxy),
        proxy.sessions.contains_key(turn.key),
        !(turn.stage is Register || turn.stage is Closed),
    ensures
        counts_sessions(
            table_entered(table, proxy.next_turn(turn, reply, now).stage),
            proxy.resumed(turn, reply, now),
        ),
{
    let next = proxy.next_turn(turn, reply, now);
    let middle = proxy.replied(turn, reply, now);
    lemma_replied_consistent(proxy, turn, reply, now);
    assert forall|address: SocketAddress| #[trigger] table.contains_key(address)
        implies table[address]
        == sessions_on(middle, address) by {
        assert(keys_on(middle, address) =~= keys_on(proxy, address));
    }
    law_closing_is_counted(table, middle, turn.key);
    if !(next.stage is Closed) {
        let after = proxy.resumed(turn, reply, now);
        assert forall|address: SocketAddress| #[trigger] table.contains_key(address)
            implies table[address]
            == sessions_on(after, address) by {
            assert(keys_on(after, address) =~= keys_on(middle, address));
        }
    }
}

/// Forgetting servers keeps the counts of the others right.
pub proof fn law_forgetting_keeps_counts(
    table: Map<SocketAddress, usize>,
    proxy: ProxyModel,
    servers: Seq<SocketAddress>,
)
    requires
        counts_sessions(table, proxy),
    ensures
        counts_sessions(table.restrict(servers.to_set()), proxy),
{
    let kept = table.restrict(servers.to_set());
    assert forall|address: SocketAddress| #[trigger] kept.contains_key(address)
        implies kept[address]
        == sessions_on(proxy, address) by {
        assert(table.contains_key(address));
    }
}

/// Learning of servers keeps the counts right, if no session is left on a server
/// that was forgotten and comes back.
pub proof fn law_learning_keeps_counts(
    table: Map<SocketAddress, usize>,
    proxy: ProxyModel,
    servers: Seq<SocketAddress>,
)
    requires
        counts_sessions(table, proxy),
        forall|key: usize, i: int|
            #![trigger proxy.sessions[key], servers[i]]
            proxy.sessions.contains_key(key) && 0 <= i < servers.len() && !table.contains_key(
                servers[i],
            ) ==> proxy.sessions[key].session_backend != servers[i],
    ensures
        counts_sessions(with_servers(table, servers), proxy),
{
    let more = with_servers(table, servers);
    assert forall|address: SocketAddress| #[trigger] more.contains_key(address)
        implies more[address]
        == sessions_on(proxy, address) by {
        if !table.contains_key(address) {
            let i = servers.index_of(address);
            assert(servers[i] == address);
            assert(keys_on(proxy, address) =~= Set::empty()) by {
                assert forall|key: usize| !keys_on(proxy, address).contains(key) by {
                    assert(proxy.sessions[key].session_backend == servers[i]
                        ==> !proxy.sessions.contains_key(key));
                }
            }
        }
    }
}

/// Every server of the list is known.
pub open spec fn all_known(
    table: Map<SocketAddress, usize>,
    servers: Seq<SocketAddress>,
) -> bool {
    forall|i: int| 0 <= i < servers.len() ==> table.contains_key(#[trigger] servers[i])
}

/// A fresh table knows every configured server.
pub proof fn law_configured_servers_are_known(servers: Seq<SocketAddress>)
    ensures
        all_known(with_servers(Map::empty(), servers), servers),
{
}

/// A new configuration makes its servers known and forgets none, so that every
/// server that was known stays so.
pub proof fn law_reload_forgets_no_server(
    table: Map<SocketAddress, usize>,
    healthy: Seq<SocketAddress>,
    configured: Seq<SocketAddress>,
)
    requires
        all_known(table, healthy),
    ensures
        all_known(with_servers(table, configured), healthy),
        all_known(with_servers(table, configured), configured),
        forall|address: SocketAddress| #[trigger]
            table.contains_key(address) ==> with_servers(table, configured)[address]
                == table[address],
{
}

/// A health check finds only configured servers healthy, and the table still
/// knows all of them once it has forgotten the servers that are not configured.
pub proof fn law_healthy_servers_are_known(
    table: Map<SocketAddress, usize>,
    configured: Seq<SocketAddress>,
    answered: Seq<bool>,
)
    requires
        all_known(table, configured),
        answered.len() == configured.len(),
    ensures
        forall|i: int|
            0 <= i < answering(configured, answered).len() ==> configured.contains(
                #[trigger] answering(configured, answered)[i],
            ),
        all_known(table.restrict(configured.to_set()), answering(configured, answered)),
{
    lemma_answering(configured, answered);
    let healthy = answering(configured, answered);
    let kept = table.restrict(configured.to_set());
    assert forall|i: int| 0 <= i < healthy.len()
        implies kept.contains_key(#[trigger] healthy[i]) by {
        assert(configured.contains(healthy[i]));
        let j = configured.index_of(healthy[i]);
        assert(table.contains_key(configured[j]));
    }
}

proof fn lemma_answering(configured: Seq<SocketAddress>, answered: Seq<bool>)
    requires
        answered.len() == configured.len(),
    ensures
        forall|i: int|
            0 <= i < answering(configured, answered).len() ==> configured.contains(
                #[trigger] answering(configured, answered)[i],
            ),
    decreases configured.len(),
{
    if configured.len() > 0 {
        let shorter = configured.drop_last();
        lemma_answering(shorter, answered.drop_last());
        let healthy = answering(configured, answered);
        let rest = answering(shorter, answered.drop_last());
        assert forall|i: int| 0 <= i < healthy.len() implies configured.contains(
            #[trigger] healthy[i],
        ) by {
            if i < rest.len() {
                assert(healthy[i] == rest[i]);
                assert(shorter.contains(rest[i]));
                let j = shorter.index_of(rest[i]);
                assert(configured[j] == rest[i]);
            } else {
                assert(configured[configured.len() - 1] == healthy[i]);
            }
        }
    }
}

/// An event on a socket of any session that the proxy holds reaches that session.
pub proof fn law_held_sessions_are_reached(proxy: ProxyModel, key: usize, side: Side)
    requires
        proxy.consistent(),
        proxy.sessions.contains_key(key),
    ensures
        route(session_token(key, side)) == (Route::Session { key, side }),
{
    law_events_reach_their_session(key, side);
}

} // verus!
