//! What holds after any run of the phased proxy.

use vstd::prelude::*;
use crate::address::SocketAddress;
use crate::bookkeeping::{
    all_known, clock_has_reached, counts_sessions, in_order_but_for, law_beginning_is_counted,
    law_beginning_keeps_order, law_closing_is_counted, law_configured_servers_are_known,
    law_expiring_keeps_order, law_forgetting_keeps_counts, law_healthy_servers_are_known,
    law_learning_keeps_counts, law_opening_is_counted, law_opening_keeps_order,
    law_reload_forgets_no_server, law_resuming_is_counted, law_resuming_keeps_order,
    law_sweep_misses_no_idle_session, lemma_replied_consistent, longest_idle_first, sessions_on,
};
use crate::phased::{fits, lemma_moved_holds_same, table_entered, ProxyModel, Turn, IDLE_TIMEOUT};
use crate::recency::{lemma_without, moved_to_tail};
use crate::relay::{ReplyModel, Side};
use crate::servers::{answering, with_servers, with_session_begun, with_session_ended};
use crate::session_slab::MAX_SESSIONS;

verus! {

/// The proxy and the table of its servers, the servers that are configured and
/// those that were last found healthy, the turn that goes on, and the latest
/// reading of the clock.
#[verifier::ext_equal]
pub struct Run {
    pub proxy: ProxyModel,
    pub table: Map<SocketAddress, usize>,
    pub configured: Seq<SocketAddress>,
    pub healthy: Seq<SocketAddress>,
    pub turn: Option<Turn>,
    pub clock: u64,
}

/// What the proxy or the table of its servers is asked to do.
#[verifier::ext_equal]
pub enum Step {
    Open { key: usize, backend: SocketAddress, now: u64 },
    Begin { key: usize, side: Side, readable: bool },
    Resume { reply: ReplyModel, now: u64 },
    Expire { now: u64 },
    ShutDown,
    Reload { servers: Seq<SocketAddress> },
    Check { answered: Seq<bool> },
    Forget,
}

/// A turn that is over is not gone on with.
pub open spec fn ongoing(turn: Turn) -> Option<Turn> {
    if turn.stage is Register || turn.stage is Closed {
        None
    } else {
        Some(turn)
    }
}

impl Run {
    /// A proxy with no session, whose table knows the configured servers. All of
    /// them are taken for healthy.
    pub open spec fn start(servers: Seq<SocketAddress>) -> Run {
        Run {
            proxy: ProxyModel {
                sessions: Map::empty(),
                order: Seq::empty(),
                num_connections: 0,
                total_throughput: 0,
                is_shutting_down: false,
            },
            table: with_servers(Map::empty(), servers),
            configured: servers,
            healthy: servers,
            turn: None,
            clock: 0,
        }
    }

    /// Turns do not overlap, the clock does not go back, and sessions are opened on
    /// known servers while the proxy accepts them. A server that is forgotten
    /// does not come back while it still serves a session, and servers are
    /// forgotten only while every healthy server is configured.
    pub open spec fn possible(self, step: Step) -> bool {
        match step {
            Step::Open { key, backend, now } => {
                &&& self.turn is None
                &&& !self.proxy.is_shutting_down
                &&& !self.proxy.sessions.contains_key(key)
                &&& key < usize::MAX / 2
                &&& self.proxy.num_connections < MAX_SESSIONS
                &&& self.table.contains_key(backend)
                &&& self.clock <= now
            },
            Step::Begin { key, .. } => {
                &&& self.turn is None
                &&& self.proxy.sessions.contains_key(key)
            },
            Step::Resume { reply, now } => {
                &&& self.turn matches Some(turn)
                &&& fits(self.proxy.sessions[turn.key].relay, turn.stage, reply)
                &&& self.clock <= now
            },
            Step::Expire { now } => {
                &&& self.turn is None
                &&& self.proxy.order.len() > 0
                &&& self.proxy.idle(self.proxy.order.first(), now)
                &&& self.clock <= now
            },
            Step::ShutDown => true,
            Step::Reload { servers } => forall|key: usize, i: int|
                #![trigger self.proxy.sessions[key], servers[i]]
                self.proxy.sessions.contains_key(key) && 0 <= i < servers.len()
                    && !self.table.contains_key(servers[i])
                    ==> self.proxy.sessions[key].session_backend != servers[i],
            Step::Check { answered } => answered.len() == self.configured.len(),
            Step::Forget => forall|i: int|
                0 <= i < self.healthy.len() ==> self.configured.contains(
                    #[trigger] self.healthy[i],
                ),
        }
    }

    pub open spec fn after(self, step: Step) -> Run {
        match step {
            Step::Open { key, backend, now } => Run {
                proxy: self.proxy.opened(key, backend, now),
                table: with_session_begun(self.table, backend),
                clock: now,
                ..self
            },
            Step::Begin { key, side, readable } => {
                let turn = self.proxy.first_turn(key, side, readable);
                Run {
                    proxy: self.proxy.entered(turn),
                    table: table_entered(self.table, turn.stage),
                    turn: ongoing(turn),
                    ..self
                }
            },
            Step::Resume { reply, now } => {
                let turn = self.proxy.next_turn(self.turn.unwrap(), reply, now);
                Run {
                    proxy: self.proxy.resumed(self.turn.unwrap(), reply, now),
                    table: table_entered(self.table, turn.stage),
                    turn: ongoing(turn),
                    clock: now,
                    ..self
                }
            },
            Step::Expire { now } => {
                let key = self.proxy.order.first();
                Run {
                    proxy: self.proxy.closed(key),
                    table: with_session_ended(
                        self.table,
                        self.proxy.sessions[key].session_backend,
                    ),
                    clock: now,
                    ..self
                }
            },
            Step::ShutDown => Run {
                proxy: ProxyModel { is_shutting_down: true, ..self.proxy },
                ..self
            },
            Step::Reload { servers } => Run {
                table: with_servers(self.table, servers),
                configured: servers,
                ..self
            },
            Step::Check { answered } => Run {
                healthy: answering(self.configured, answered),
                ..self
            },
            Step::Forget => Run {
                table: self.table.restrict(self.configured.to_set()),
                ..self
            },
        }
    }

    /// After all of these steps, the first one first.
    pub open spec fn after_all(self, steps: Seq<Step>) -> Run
        decreases steps.len(),
    {
        if steps.len() == 0 {
            self
        } else {
            self.after_all(steps.drop_last()).after(steps.last())
        }
    }

    /// Each of these steps can be taken after those before it.
    pub open spec fn all_possible(self, steps: Seq<Step>) -> bool
        decreases steps.len(),
    {
        steps.len() > 0 ==> {
            &&& self.all_possible(steps.drop_last())
            &&& self.after_all(steps.drop_last()).possible(steps.last())
        }
    }

    /// Every session is counted, in all and for its server, every server that is
    /// configured or healthy is known, and the session that was active longest
    /// ago comes first when no turn goes on.
    pub open spec fn in_order(self) -> bool {
        &&& self.proxy.consistent()
        &&& counts_sessions(self.table, self.proxy)
        &&& all_known(self.table, self.configured)
        &&& all_known(self.table, self.healthy)
        &&& clock_has_reached(self.proxy, self.clock)
        &&& match self.turn {
            None => longest_idle_first(self.proxy),
            Some(turn) => {
                &&& self.proxy.sessions.contains_key(turn.key)
                &&& !(turn.stage is Register || turn.stage is Closed)
                &&& in_order_but_for(self.proxy, turn)
            },
        }
    }
}

proof fn lemma_opened_consistent(proxy: ProxyModel, key: usize, backend: SocketAddress, now: u64)
    requires
        proxy.consistent(),
        !proxy.sessions.contains_key(key),
        key < usize::MAX / 2,
        proxy.num_connections < MAX_SESSIONS,
    ensures
        proxy.opened(key, backend, now).consistent(),
{
    let after = proxy.opened(key, backend, now);
    assert forall|k: usize| after.order.contains(k) <==> (proxy.order.contains(k) || k == key) by {
        if proxy.order.contains(k) {
            assert(after.order[proxy.order.index_of(k)] == k);
        }
        if k == key {
            assert(after.order[proxy.order.len() as int] == k);
        }
    }
    assert forall|k: usize| #[trigger] after.sessions.contains_key(k)
        <==> after.order.contains(k) by {
        assert(proxy.sessions.contains_key(k) <==> proxy.order.contains(k));
    }
    assert forall|k: usize| #[trigger] after.sessions.contains_key(k)
        implies k < usize::MAX / 2 by {
        assert(k == key || proxy.sessions.contains_key(k));
    }
}

proof fn lemma_closed_consistent(proxy: ProxyModel, key: usize)
    requires
        proxy.consistent(),
        proxy.sessions.contains_key(key),
    ensures
        proxy.closed(key).consistent(),
{
    assert(proxy.order.contains(key));
    lemma_without(proxy.order, key);
    let after = proxy.closed(key);
    assert forall|k: usize| #[trigger] after.sessions.contains_key(k)
        implies k < usize::MAX / 2 by {
        assert(proxy.sessions.contains_key(k));
    }
}

proof fn lemma_entered_consistent(proxy: ProxyModel, turn: Turn)
    requires
        proxy.consistent(),
        proxy.sessions.contains_key(turn.key),
    ensures
        proxy.entered(turn).consistent(),
{
    lemma_closed_consistent(proxy, turn.key);
    assert(proxy.order.contains(turn.key));
    lemma_without(proxy.order, turn.key);
    lemma_moved_holds_same(proxy.order, turn.key);
    assert(moved_to_tail(proxy.order, turn.key).no_duplicates());
}

proof fn lemma_step(run: Run, step: Step)
    requires
        run.in_order(),
        run.possible(step),
    ensures
        run.after(step).in_order(),
{
    let proxy = run.proxy;
    match step {
        Step::Open { key, backend, now } => {
            lemma_opened_consistent(proxy, key, backend, now);
            law_opening_is_counted(run.table, proxy, key, backend, now);
            assert(clock_has_reached(proxy, now));
            law_opening_keeps_order(proxy, key, backend, now);
        },
        Step::Begin { key, side, readable } => {
            let turn = proxy.first_turn(key, side, readable);
            lemma_entered_consistent(proxy, turn);
            law_beginning_is_counted(run.table, proxy, key, side, readable);
            law_beginning_keeps_order(proxy, key, side, readable);
            let after = proxy.entered(turn);
            assert forall|k: usize| #[trigger] after.sessions.contains_key(k)
                implies after.sessions[k].last_activity <= run.clock by {
                assert(proxy.sessions.contains_key(k));
            }
        },
        Step::Resume { reply, now } => {
            let turn = run.turn.unwrap();
            lemma_replied_consistent(proxy, turn, reply, now);
            lemma_entered_consistent(
                proxy.replied(turn, reply, now),
                proxy.next_turn(turn, reply, now),
            );
            law_resuming_is_counted(run.table, proxy, turn, reply, now);
            law_resuming_keeps_order(proxy, turn, reply, now);
        },
        Step::Expire { now } => {
            let key = proxy.order.first();
            assert(proxy.order.contains(proxy.order[0]));
            lemma_closed_consistent(proxy, key);
            law_closing_is_counted(run.table, proxy, key);
            law_expiring_keeps_order(proxy);
            let after = proxy.closed(key);
            assert forall|k: usize| #[trigger] after.sessions.contains_key(k)
                implies after.sessions[k].last_activity <= now by {
                assert(proxy.sessions.contains_key(k));
            }
        },
        Step::ShutDown => {
            let after = run.after(step).proxy;
            assert(after.sessions == proxy.sessions);
            assert forall|address: SocketAddress| #[trigger] run.table.contains_key(address)
                implies run.table[address] == sessions_on(after, address) by {
                assert(sessions_on(after, address)
                    == sessions_on(proxy, address));
            }
        },
        Step::Reload { servers } => {
            law_learning_keeps_counts(run.table, proxy, servers);
            law_reload_forgets_no_server(run.table, run.healthy, servers);
        },
        Step::Check { answered } => {
            law_healthy_servers_are_known(run.table, run.configured, answered);
        },
        Step::Forget => {
            law_forgetting_keeps_counts(run.table, proxy, run.configured);
        },
    }
}

/// After any run, every session is counted, in all and for its server, every
/// server that a client may be sent to is known, and the session that was active
/// longest ago comes first.
pub proof fn law_runs_keep_order(servers: Seq<SocketAddress>, steps: Seq<Step>)
    requires
        Run::start(servers).all_possible(steps),
    ensures
        Run::start(servers).after_all(steps).in_order(),
    decreases steps.len(),
{
    let start = Run::start(servers);
    if steps.len() == 0 {
        law_configured_servers_are_known(servers);
        assert forall|address: SocketAddress| #[trigger] start.table.contains_key(address)
            implies start.table[address] == sessions_on(
            start.proxy,
            address,
        ) by {
            assert(start.proxy.sessions.dom().filter(
                |key: usize| start.proxy.sessions[key].session_backend == address,
            ) =~= Set::empty());
        }
    } else {
        law_runs_keep_order(servers, steps.drop_last());
        lemma_step(start.after_all(steps.drop_last()), steps.last());
    }
}

/// Right after a health check, servers may be forgotten.
pub proof fn law_servers_are_forgotten_after_a_check(run: Run, answered: Seq<bool>)
    requires
        run.in_order(),
        run.possible(Step::Check { answered }),
    ensures
        run.after(Step::Check { answered }).possible(Step::Forget),
{
    law_healthy_servers_are_known(run.table, run.configured, answered);
}

/// After any run, once a sweep has stopped, no session is left that has been
/// idle for too long.
pub proof fn law_sweeps_close_every_idle_session(
    servers: Seq<SocketAddress>,
    steps: Seq<Step>,
    now: u64,
)
    requires
        Run::start(servers).all_possible(steps),
        Run::start(servers).after_all(steps).turn is None,
        !Run::start(servers).after_all(steps).possible(Step::Expire { now }),
        Run::start(servers).after_all(steps).clock <= now,
    ensures
        ({
            let proxy = Run::start(servers).after_all(steps).proxy;
            forall|key: usize| #[trigger]
                proxy.sessions.contains_key(key) ==> !proxy.idle(key, now) && now
                    - proxy.sessions[key].last_activity <= IDLE_TIMEOUT
        }),
{
    law_runs_keep_order(servers, steps);
    law_sweep_misses_no_idle_session(Run::start(servers).after_all(steps).proxy, now);
}

/// A proxy that is shutting down opens no session: each step leaves it with no
/// session that was not there before.
pub proof fn law_shutdown_only_drains(run: Run, step: Step)
    requires
        run.proxy.is_shutting_down,
        run.in_order(),
        run.possible(step),
    ensures
        run.after(step).proxy.is_shutting_down,
        run.after(step).proxy.sessions.dom().subset_of(run.proxy.sessions.dom()),
{
}

} // verus!
