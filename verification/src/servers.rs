//! The backend servers: which are configured, which answer, how many sessions
//! each of them serves, and which one gets the next session.

use vstd::prelude::*;
use crate::address::SocketAddress;

verus! {

/// How many sessions one server serves.
#[derive(Clone, Copy, Debug)]
pub struct ServerLoad {
    pub address: SocketAddress,
    pub connections: usize,
}

/// How many sessions each known server serves.
#[derive(Debug)]
pub struct ServerTable {
    loads: Vec<ServerLoad>,
}

spec fn listed(loads: Seq<ServerLoad>, address: SocketAddress) -> bool {
    exists|i: int| 0 <= i < loads.len() && (#[trigger] loads[i]).address == address
}

spec fn position(loads: Seq<ServerLoad>, address: SocketAddress) -> int {
    choose|i: int| 0 <= i < loads.len() && (#[trigger] loads[i]).address == address
}

spec fn distinct(loads: Seq<ServerLoad>) -> bool {
    forall|i: int, j: int|
        0 <= i < loads.len() && 0 <= j < loads.len() && #[trigger] loads[i].address
            == #[trigger] loads[j].address ==> i == j
}

spec fn as_map(loads: Seq<ServerLoad>) -> Map<SocketAddress, usize> {
    Map::new(
        |address: SocketAddress| listed(loads, address),
        |address: SocketAddress| loads[position(loads, address)].connections,
    )
}

/// The table once every server of the list is known: a server that was not
/// known serves no session.
pub open spec fn with_servers(
    table: Map<SocketAddress, usize>,
    servers: Seq<SocketAddress>,
) -> Map<SocketAddress, usize> {
    Map::new(
        |address: SocketAddress| table.contains_key(address) || servers.contains(address),
        |address: SocketAddress|
            if table.contains_key(address) {
                table[address]
            } else {
                0
            },
    )
}

/// The table once a session has begun on a known server.
pub open spec fn with_session_begun(
    table: Map<SocketAddress, usize>,
    address: SocketAddress,
) -> Map<SocketAddress, usize> {
    table.insert(address, table[address].wrapping_add(1))
}

/// The table once a session has ended on a server. A server that is no longer
/// known is not counted for.
pub open spec fn with_session_ended(
    table: Map<SocketAddress, usize>,
    address: SocketAddress,
) -> Map<SocketAddress, usize> {
    if table.contains_key(address) {
        table.insert(address, table[address].wrapping_sub(1))
    } else {
        table
    }
}

/// The server at `choice` serves the fewest sessions, and fewer than any server
/// listed before it.
pub open spec fn least_loaded(
    table: Map<SocketAddress, usize>,
    servers: Seq<SocketAddress>,
    choice: int,
) -> bool {
    &&& 0 <= choice < servers.len()
    &&& forall|i: int|
        0 <= i < servers.len() ==> table[servers[choice]] <= #[trigger] table[servers[i]]
    &&& forall|i: int|
        0 <= i < choice ==> table[servers[choice]] < #[trigger] table[servers[i]]
}

impl View for ServerTable {
    type V = Map<SocketAddress, usize>;

    closed spec fn view(&self) -> Map<SocketAddress, usize> {
        as_map(self.loads@)
    }
}

proof fn lemma_entry(loads: Seq<ServerLoad>, i: int)
    requires
        distinct(loads),
        0 <= i < loads.len(),
    ensures
        as_map(loads).contains_key(loads[i].address),
        as_map(loads)[loads[i].address] == loads[i].connections,
{
    assert(listed(loads, loads[i].address));
    let p = position(loads, loads[i].address);
    assert(loads[p].address == loads[i].address);
}

proof fn lemma_push(loads: Seq<ServerLoad>, load: ServerLoad)
    requires
        distinct(loads),
        !listed(loads, load.address),
    ensures
        distinct(loads.push(load)),
        as_map(loads.push(load)) == as_map(loads).insert(load.address, load.connections),
{
    let longer = loads.push(load);
    assert forall|address: SocketAddress|
        listed(longer, address) <==> (listed(loads, address) || address == load.address) by {
        if listed(loads, address) {
            let i = position(loads, address);
            assert(longer[i].address == address);
        }
        if address == load.address {
            assert(longer[loads.len() as int].address == address);
        }
    }
    assert(distinct(longer)) by {
        assert forall|i: int, j: int|
            0 <= i < longer.len() && 0 <= j < longer.len() && #[trigger] longer[i].address
                == #[trigger] longer[j].address implies i == j by {
            if i < loads.len() && j < loads.len() {
                assert(loads[i].address == loads[j].address);
            } else if i < loads.len() {
                assert(listed(loads, loads[i].address));
            } else if j < loads.len() {
                assert(listed(loads, loads[j].address));
            }
        }
    }
    assert forall|address: SocketAddress| #[trigger] listed(longer, address) implies as_map(
        longer,
    )[address] == as_map(loads).insert(load.address, load.connections)[address] by {
        let p = position(longer, address);
        assert(longer[p].address == address);
        lemma_entry(longer, p);
        if p < loads.len() {
            assert(loads[p].address == address);
            lemma_entry(loads, p);
            assert(listed(loads, address));
        }
    }
    assert(as_map(longer) =~= as_map(loads).insert(load.address, load.connections));
}

proof fn lemma_update(loads: Seq<ServerLoad>, i: int, connections: usize)
    requires
        distinct(loads),
        0 <= i < loads.len(),
    ensures
        distinct(loads.update(i, ServerLoad { address: loads[i].address, connections })),
        as_map(loads.update(i, ServerLoad { address: loads[i].address, connections }))
            == as_map(loads).insert(loads[i].address, connections),
{
    let changed = loads.update(i, ServerLoad { address: loads[i].address, connections });
    assert(forall|j: int|
        0 <= j < loads.len() ==> #[trigger] changed[j].address == loads[j].address);
    assert(distinct(changed)) by {
        assert forall|a: int, b: int|
            0 <= a < changed.len() && 0 <= b < changed.len() && #[trigger] changed[a].address
                == #[trigger] changed[b].address implies a == b by {
            assert(loads[a].address == loads[b].address);
        }
    }
    assert forall|address: SocketAddress| listed(changed, address) <==> listed(loads, address) by {
        if listed(loads, address) {
            assert(changed[position(loads, address)].address == address);
        }
        if listed(changed, address) {
            assert(loads[position(changed, address)].address == address);
        }
    }
    assert(listed(loads, loads[i].address));
    assert forall|address: SocketAddress| #[trigger] listed(loads, address) implies as_map(
        changed,
    )[address] == as_map(loads).insert(loads[i].address, connections)[address] by {
        let p = position(loads, address);
        lemma_entry(changed, p);
        lemma_entry(loads, p);
        assert(loads[p].address == address);
        assert(changed[p].address == address);
    }
    assert(as_map(changed) =~= as_map(loads).insert(loads[i].address, connections));
}

/// Whether the address is one of the list.
fn is_one_of(servers: &Vec<SocketAddress>, address: SocketAddress) -> (found: bool)
    ensures
        found == servers@.contains(address),
{
    for i in 0..servers.len()
        invariant
            forall|j: int| 0 <= j < i ==> servers@[j] != address,
    {
        if servers[i] == address {
            return true;
        }
    }
    false
}

impl ServerTable {
    /// No server is listed twice.
    pub closed spec fn wf(self) -> bool {
        distinct(self.loads@)
    }

    /// Every server of the list is known and serves no session.
    pub fn new(servers: &Vec<SocketAddress>) -> (table: ServerTable)
        ensures
            table.wf(),
            table@ == with_servers(Map::empty(), servers@),
    {
        let mut table = ServerTable { loads: Vec::new() };
        assert(table@ =~= Map::empty());
        table.add_servers(servers);
        table
    }

    fn find(&self, address: SocketAddress) -> (place: Option<usize>)
        requires
            self.wf(),
        ensures
            place is None <==> !self@.contains_key(address),
            place matches Some(i) ==> i < self.loads@.len() && self.loads@[i as int].address
                == address && self.loads@[i as int].connections == self@[address],
    {
        for i in 0..self.loads.len()
            invariant
                self.wf(),
                forall|j: int| 0 <= j < i ==> #[trigger] self.loads@[j].address != address,
        {
            if self.loads[i].address == address {
                proof {
                    lemma_entry(self.loads@, i as int);
                }
                return Some(i);
            }
        }
        None
    }

    /// How many sessions the server serves, if it is known.
    pub fn connections(&self, address: SocketAddress) -> (count: Option<usize>)
        requires
            self.wf(),
        ensures
            count == (if self@.contains_key(address) {
                Some(self@[address])
            } else {
                None
            }),
    {
        match self.find(address) {
            Some(i) => Some(self.loads[i].connections),
            None => None,
        }
    }

    /// Whether every server of the list is known.
    pub fn knows_all(&self, servers: &Vec<SocketAddress>) -> (known: bool)
        requires
            self.wf(),
        ensures
            known == (forall|i: int|
                0 <= i < servers@.len() ==> self@.contains_key(#[trigger] servers@[i])),
    {
        for i in 0..servers.len()
            invariant
                self.wf(),
                forall|j: int| 0 <= j < i ==> self@.contains_key(#[trigger] servers@[j]),
        {
            if self.find(servers[i]).is_none() {
                assert(!self@.contains_key(servers@[i as int]));
                return false;
            }
        }
        true
    }

    /// Makes every server of the list known. The count of a server that was
    /// known before stays.
    pub fn add_servers(&mut self, servers: &Vec<SocketAddress>)
        requires
            old(self).wf(),
        ensures
            final(self).wf(),
            final(self)@ == with_servers(old(self)@, servers@),
    {
        assert(self@ =~= with_servers(old(self)@, servers@.take(0)));
        for i in 0..servers.len()
            invariant
                self.wf(),
                self@ == with_servers(old(self)@, servers@.take(i as int)),
        {
            let ghost before = *self;
            if self.find(servers[i]).is_none() {
                self.loads.push(ServerLoad { address: servers[i], connections: 0 });
                proof {
                    lemma_push(
                        before.loads@,
                        ServerLoad { address: servers@[i as int], connections: 0 },
                    );
                }
            }
            proof {
                let done = servers@.take(i as int);
                let more = servers@.take(i + 1);
                assert(more =~= done.push(servers@[i as int]));
                assert forall|address: SocketAddress|
                    more.contains(address) <==> (done.contains(address) || address
                        == servers@[i as int]) by {
                    if done.contains(address) {
                        assert(more[done.index_of(address)] == address);
                    }
                    if address == servers@[i as int] {
                        assert(more[i as int] == address);
                    }
                }
                assert(self@ =~= with_servers(old(self)@, more));
            }
        }
        assert(servers@.take(servers@.len() as int) =~= servers@);
    }

    /// Forgets every server that is not in the list.
    pub fn retain_listed(&mut self, servers: &Vec<SocketAddress>)
        requires
            old(self).wf(),
        ensures
            final(self).wf(),
            final(self)@ == old(self)@.restrict(servers@.to_set()),
    {
        let mut kept: Vec<ServerLoad> = Vec::new();
        let ghost all = self.loads@;
        assert(as_map(kept@) =~= as_map(all.take(0)).restrict(servers@.to_set()));
        for i in 0..self.loads.len()
            invariant
                self.loads@ == all,
                distinct(all),
                distinct(kept@),
                as_map(kept@) == as_map(all.take(i as int)).restrict(servers@.to_set()),
                distinct(all.take(i as int)),
        {
            let load = self.loads[i];
            proof {
                let done = all.take(i as int);
                assert(all.take(i + 1) =~= done.push(load));
                if listed(done, load.address) {
                    let j = position(done, load.address);
                    assert(all[j].address == all[i as int].address);
                }
                lemma_push(done, load);
            }
            if is_one_of(servers, load.address) {
                proof {
                    if listed(kept@, load.address) {
                        assert(as_map(kept@).contains_key(load.address));
                        assert(as_map(all.take(i as int)).contains_key(load.address));
                    }
                    lemma_push(kept@, load);
                }
                kept.push(load);
            }
            assert(as_map(kept@) =~= as_map(all.take(i + 1)).restrict(servers@.to_set()));
        }
        assert(all.take(all.len() as int) =~= all);
        self.loads = kept;
    }

    /// A session has begun on the server.
    pub fn begin_session(&mut self, address: SocketAddress)
        requires
            old(self).wf(),
            old(self)@.contains_key(address),
        ensures
            final(self).wf(),
            final(self)@ == with_session_begun(old(self)@, address),
    {
        if let Some(i) = self.find(address) {
            let connections = self.loads[i].connections.wrapping_add(1);
            proof {
                lemma_update(self.loads@, i as int, connections);
            }
            self.loads.set(i, ServerLoad { address, connections });
        }
    }

    /// A session has ended on the server.
    pub fn end_session(&mut self, address: SocketAddress)
        requires
            old(self).wf(),
        ensures
            final(self).wf(),
            final(self)@ == with_session_ended(old(self)@, address),
    {
        if let Some(i) = self.find(address) {
            let connections = self.loads[i].connections.wrapping_sub(1);
            proof {
                lemma_update(self.loads@, i as int, connections);
            }
            self.loads.set(i, ServerLoad { address, connections });
        }
    }

    /// Picks the server with the fewest sessions, the first of them where
    /// several have equally few.
    pub fn least_connections(&self, servers: &Vec<SocketAddress>) -> (choice: Option<SocketAddress>)
        requires
            self.wf(),
            forall|i: int| 0 <= i < servers@.len() ==> self@.contains_key(#[trigger] servers@[i]),
        ensures
            choice is None <==> servers@.len() == 0,
            choice matches Some(address) ==> exists|i: int|
                #[trigger] least_loaded(self@, servers@, i) && servers@[i] == address,
            choice matches Some(address) ==> servers@.contains(address) && forall|i: int|
                0 <= i < servers@.len() ==> self@[address] <= self@[#[trigger] servers@[i]],
    {
        if servers.is_empty() {
            return None;
        }
        let mut min_connections: usize = usize::MAX;
        let mut min_connections_server = servers[0];
        let ghost mut place: int = 0;
        for i in 0..servers.len()
            invariant
                self.wf(),
                forall|j: int|
                    0 <= j < servers@.len() ==> self@.contains_key(#[trigger] servers@[j]),
                0 <= place < servers@.len(),
                place <= i,
                servers@[place] == min_connections_server,
                forall|j: int| 0 <= j < i ==> min_connections <= #[trigger] self@[servers@[j]],
                forall|j: int| 0 <= j < place ==> min_connections < #[trigger] self@[servers@[j]],
                place < i ==> self@[servers@[place]] == min_connections,
                place == i ==> place == 0 && min_connections == usize::MAX,
        {
            if let Some(connections) = self.connections(servers[i]) {
                if connections < min_connections {
                    min_connections = connections;
                    min_connections_server = servers[i];
                    proof {
                        place = i as int;
                    }
                }
            }
        }
        assert(least_loaded(self@, servers@, place));
        assert forall|j: int| 0 <= j < servers@.len() implies self@[min_connections_server]
            <= self@[#[trigger] servers@[j]] by {
            assert(self@[servers@[place]] <= self@[servers@[j]]);
        }
        Some(min_connections_server)
    }
}

/// The valid addresses of a configuration, in the order in which they are
/// listed. An address that did not parse is `None`.
pub open spec fn valid_addresses(parsed: Seq<Option<SocketAddress>>) -> Seq<SocketAddress>
    decreases parsed.len(),
{
    if parsed.len() == 0 {
        Seq::empty()
    } else {
        let rest = valid_addresses(parsed.drop_last());
        match parsed.last() {
            Some(address) => rest.push(address),
            None => rest,
        }
    }
}

/// Keeps the valid addresses of a configuration and skips the others.
pub fn configured_backends(parsed: &Vec<Option<SocketAddress>>) -> (backends: Vec<SocketAddress>)
    ensures
        backends@ == valid_addresses(parsed@),
        backends@.len() == parsed@.len() - parsed@.to_multiset().count(None),
        forall|i: int|
            0 <= i < parsed@.len() && (#[trigger] parsed@[i]) is Some ==> Some(
                backends@[i - parsed@.take(i).to_multiset().count(None)],
            ) == parsed@[i],
{
    let mut backends: Vec<SocketAddress> = Vec::new();
    for i in 0..parsed.len()
        invariant
            backends@ == valid_addresses(parsed@.take(i as int)),
    {
        assert(parsed@.take(i + 1).drop_last() =~= parsed@.take(i as int));
        if let Some(address) = parsed[i] {
            backends.push(address);
        }
    }
    assert(parsed@.take(parsed@.len() as int) =~= parsed@);
    proof {
        law_every_valid_address_is_used(parsed@);
    }
    backends
}

/// The servers of the list that answered, in the order of the list.
pub open spec fn answering(
    servers: Seq<SocketAddress>,
    answered: Seq<bool>,
) -> Seq<SocketAddress>
    decreases servers.len(),
{
    if servers.len() == 0 {
        Seq::empty()
    } else {
        let rest = answering(servers.drop_last(), answered.drop_last());
        if answered.last() {
            rest.push(servers.last())
        } else {
            rest
        }
    }
}

/// The outcome of a health check: the servers that answered.
pub fn checked_servers(servers: &Vec<SocketAddress>, answered: &Vec<bool>) -> (healthy: Vec<
    SocketAddress,
>)
    requires
        answered@.len() == servers@.len(),
    ensures
        healthy@ == answering(servers@, answered@),
        healthy@.len() == answered@.to_multiset().count(true),
        forall|i: int|
            0 <= i < servers@.len() && #[trigger] answered@[i]
                ==> healthy@[answered@.take(i).to_multiset().count(true) as int] == servers@[i],
{
    let mut healthy: Vec<SocketAddress> = Vec::new();
    for i in 0..servers.len()
        invariant
            answered@.len() == servers@.len(),
            healthy@ == answering(servers@.take(i as int), answered@.take(i as int)),
    {
        assert(servers@.take(i + 1).drop_last() =~= servers@.take(i as int));
        assert(answered@.take(i + 1).drop_last() =~= answered@.take(i as int));
        if answered[i] {
            healthy.push(servers[i]);
        }
    }
    assert(servers@.take(servers@.len() as int) =~= servers@);
    assert(answered@.take(answered@.len() as int) =~= answered@);
    proof {
        law_every_server_that_answers_is_healthy(servers@, answered@);
    }
    healthy
}

/// Picks the servers of the list in turn. `cursor` counts the picks and starts
/// over once it can count no further.
pub fn next_in_turn(servers: &Vec<SocketAddress>, cursor: &mut usize) -> (choice: Option<
    SocketAddress,
>)
    ensures
        servers@.len() == 0 ==> choice is None && *final(cursor) == *old(cursor),
        servers@.len() > 0 ==> choice == Some(
            servers@[*old(cursor) as int % servers@.len() as int],
        ) && *final(cursor) == old(cursor).wrapping_add(1),
{
    if servers.is_empty() {
        return None;
    }
    let index: usize = *cursor % servers.len();
    *cursor = cursor.wrapping_add(1);
    Some(servers[index])
}

/// The loads of the servers and their order in the list admit one pick only.
pub proof fn law_pick_is_determined(
    table: Map<SocketAddress, usize>,
    servers: Seq<SocketAddress>,
    one: int,
    other: int,
)
    requires
        least_loaded(table, servers, one),
        least_loaded(table, servers, other),
    ensures
        one == other,
{
    assert(table[servers[one]] <= table[servers[other]]);
    assert(table[servers[other]] <= table[servers[one]]);
}

/// Two picks that are less than a round apart pick different servers.
pub proof fn law_rounds_repeat_no_server(first: usize, second: usize, servers: nat)
    requires
        first < second < first + servers,
    ensures
        first as int % servers as int != second as int % servers as int,
{
    vstd::arithmetic::div_mod::lemma_mod_equivalence(
        second as int,
        first as int,
        servers as int,
    );
    vstd::arithmetic::div_mod::lemma_small_mod((second - first) as nat, servers);
}

/// Every valid address of a configuration is used, in the order of the
/// configuration: an address stands behind as many others as there are valid
/// ones listed before it, and only the invalid ones are left out.
pub proof fn law_every_valid_address_is_used(parsed: Seq<Option<SocketAddress>>)
    ensures
        valid_addresses(parsed).len() == parsed.len() - parsed.to_multiset().count(None),
        forall|i: int|
            0 <= i < parsed.len() && (#[trigger] parsed[i]) is Some ==> {
                let place = i - parsed.take(i).to_multiset().count(None);
                &&& 0 <= place < valid_addresses(parsed).len()
                &&& Some(valid_addresses(parsed)[place]) == parsed[i]
            },
        forall|i: int|
            0 <= i < parsed.len() && (#[trigger] parsed[i]) is Some ==> valid_addresses(
                parsed,
            ).contains(parsed[i].unwrap()),
        forall|place: int|
            0 <= place < valid_addresses(parsed).len() ==> parsed.contains(
                Some(#[trigger] valid_addresses(parsed)[place]),
            ),
    decreases parsed.len(),
{
    broadcast use vstd::seq_lib::group_to_multiset_ensures;

    if parsed.len() == 0 {
        assert(parsed =~= Seq::empty());
        assert(parsed.to_multiset() =~= vstd::multiset::Multiset::empty());
    } else {
        let shorter = parsed.drop_last();
        law_every_valid_address_is_used(shorter);
        assert(parsed =~= shorter.push(parsed.last()));
        let all = valid_addresses(parsed);
        let rest = valid_addresses(shorter);
        assert forall|i: int| 0 <= i < parsed.len() && (#[trigger] parsed[i]) is Some implies {
            let place = i - parsed.take(i).to_multiset().count(None);
            &&& 0 <= place < all.len()
            &&& Some(all[place]) == parsed[i]
        } by {
            if i < shorter.len() {
                assert(parsed.take(i) =~= shorter.take(i));
                assert(shorter[i] == parsed[i]);
            } else {
                assert(parsed.take(i) =~= shorter);
            }
        }
        assert forall|place: int| 0 <= place < all.len() implies parsed.contains(
            Some(#[trigger] all[place]),
        ) by {
            if place < rest.len() {
                assert(all[place] == rest[place]);
                let j = shorter.index_of(Some(rest[place]));
                assert(parsed[j] == Some(rest[place]));
            } else {
                assert(parsed[parsed.len() - 1] == Some(all[place]));
            }
        }
    }
}

/// A configuration without invalid addresses is used whole.
pub proof fn law_valid_configurations_are_used_whole(servers: Seq<SocketAddress>)
    ensures
        valid_addresses(servers.map_values(|address: SocketAddress| Some(address))) == servers,
    decreases servers.len(),
{
    let parsed = servers.map_values(|address: SocketAddress| Some(address));
    if servers.len() > 0 {
        law_valid_configurations_are_used_whole(servers.drop_last());
        assert(parsed.drop_last() =~= servers.drop_last().map_values(
            |address: SocketAddress| Some(address),
        ));
        assert(servers =~= servers.drop_last().push(servers.last()));
    } else {
        assert(servers =~= Seq::empty());
    }
}

/// A configuration in two parts gives the servers of the one and then those of
/// the other.
pub proof fn law_configurations_add_up(
    front: Seq<Option<SocketAddress>>,
    back: Seq<Option<SocketAddress>>,
)
    ensures
        valid_addresses(front + back) == valid_addresses(front) + valid_addresses(back),
    decreases back.len(),
{
    if back.len() == 0 {
        assert(front + back =~= front);
        assert(valid_addresses(front) + valid_addresses(back) =~= valid_addresses(front));
    } else {
        law_configurations_add_up(front, back.drop_last());
        assert((front + back).drop_last() =~= front + back.drop_last());
        assert((front + back).last() == back.last());
        assert(valid_addresses(front + back) =~= valid_addresses(front) + valid_addresses(back));
    }
}

/// A health check keeps exactly the servers that answer, in the order of the
/// list: as many as answered, and each behind as many others as answered before
/// it.
pub proof fn law_every_server_that_answers_is_healthy(
    servers: Seq<SocketAddress>,
    answered: Seq<bool>,
)
    requires
        answered.len() == servers.len(),
    ensures
        answering(servers, answered).len() == answered.to_multiset().count(true),
        forall|i: int|
            0 <= i < servers.len() && #[trigger] answered[i] ==> {
                let place = answered.take(i).to_multiset().count(true);
                &&& place < answering(servers, answered).len()
                &&& answering(servers, answered)[place as int] == servers[i]
            },
        forall|i: int|
            0 <= i < servers.len() && #[trigger] answered[i] ==> answering(
                servers,
                answered,
            ).contains(servers[i]),
        forall|place: int|
            0 <= place < answering(servers, answered).len() ==> exists|i: int|
                0 <= i < servers.len() && #[trigger] answered[i] && servers[i]
                    == #[trigger] answering(servers, answered)[place],
    decreases servers.len(),
{
    broadcast use vstd::seq_lib::group_to_multiset_ensures;

    if servers.len() == 0 {
        assert(answered =~= Seq::empty());
        assert(answered.to_multiset() =~= vstd::multiset::Multiset::empty());
    } else {
        let shorter = servers.drop_last();
        let fewer = answered.drop_last();
        law_every_server_that_answers_is_healthy(shorter, fewer);
        assert(answered =~= fewer.push(answered.last()));
        let all = answering(servers, answered);
        let rest = answering(shorter, fewer);
        assert forall|i: int| 0 <= i < servers.len() && #[trigger] answered[i] implies {
            let place = answered.take(i).to_multiset().count(true);
            &&& place < all.len()
            &&& all[place as int] == servers[i]
        } by {
            if i < shorter.len() {
                assert(answered.take(i) =~= fewer.take(i));
                assert(fewer[i] == answered[i]);
            } else {
                assert(answered.take(i) =~= fewer);
            }
        }
        assert forall|place: int| 0 <= place < all.len() implies exists|i: int|
            0 <= i < servers.len() && #[trigger] answered[i] && servers[i]
                == #[trigger] all[place] by {
            if place < rest.len() {
                assert(all[place] == rest[place]);
                let i = choose|i: int|
                    0 <= i < shorter.len() && #[trigger] fewer[i] && shorter[i] == rest[place];
                assert(answered[i] && servers[i] == all[place]);
            } else {
                assert(answered[servers.len() - 1]);
            }
        }
    }
}

/// A check of two lists, one behind the other, finds the healthy servers of the
/// one and then those of the other.
pub proof fn law_checks_add_up(
    front: Seq<SocketAddress>,
    front_answered: Seq<bool>,
    back: Seq<SocketAddress>,
    back_answered: Seq<bool>,
)
    requires
        front.len() == front_answered.len(),
        back.len() == back_answered.len(),
    ensures
        answering(front + back, front_answered + back_answered) == answering(front, front_answered)
            + answering(back, back_answered),
    decreases back.len(),
{
    if back.len() == 0 {
        assert(front + back =~= front);
        assert(front_answered + back_answered =~= front_answered);
        assert(answering(front, front_answered) + answering(back, back_answered) =~= answering(
            front,
            front_answered,
        ));
    } else {
        let answered = front_answered + back_answered;
        law_checks_add_up(front, front_answered, back.drop_last(), back_answered.drop_last());
        assert((front + back).drop_last() =~= front + back.drop_last());
        assert(answered.drop_last() =~= front_answered + back_answered.drop_last());
        assert(answered.last() == back_answered.last());
        assert((front + back).last() == back.last());
        assert(answering(front + back, answered) =~= answering(front, front_answered) + answering(
            back,
            back_answered,
        ));
    }
}

/// Learning of servers makes known those that are listed and no others, leaves
/// the counts of those that were known, and starts the others at no session.
pub proof fn law_learning_adds_what_is_listed(
    table: Map<SocketAddress, usize>,
    servers: Seq<SocketAddress>,
)
    ensures
        forall|address: SocketAddress| #[trigger]
            with_servers(table, servers).contains_key(address) <==> table.contains_key(address)
                || servers.contains(address),
        forall|address: SocketAddress|
            table.contains_key(address) ==> #[trigger] with_servers(table, servers)[address]
                == table[address],
        forall|address: SocketAddress|
            !table.contains_key(address) && servers.contains(address) ==> #[trigger] with_servers(
                table,
                servers,
            )[address] == 0,
{
}

/// A session that begins on a server counts one more for it, and none for any
/// other.
pub proof fn law_begun_session_counts_for_its_server(
    table: Map<SocketAddress, usize>,
    address: SocketAddress,
)
    requires
        table.contains_key(address),
    ensures
        with_session_begun(table, address).dom() == table.dom(),
        table[address] < usize::MAX ==> with_session_begun(table, address)[address]
            == table[address] + 1,
        table[address] == usize::MAX ==> with_session_begun(table, address)[address] == 0,
        forall|other: SocketAddress|
            other != address ==> #[trigger] with_session_begun(table, address)[other]
                == table[other],
{
    assert(with_session_begun(table, address).dom() =~= table.dom());
}

/// A session that ends on a known server counts one less for it, and none for any
/// other. On a server that is not known it is not counted.
pub proof fn law_ended_session_counts_for_its_server(
    table: Map<SocketAddress, usize>,
    address: SocketAddress,
)
    ensures
        with_session_ended(table, address).dom() == table.dom(),
        table.contains_key(address) && table[address] > 0 ==> with_session_ended(
            table,
            address,
        )[address] == table[address] - 1,
        table.contains_key(address) && table[address] == 0 ==> with_session_ended(
            table,
            address,
        )[address] == usize::MAX,
        !table.contains_key(address) ==> with_session_ended(table, address) == table,
        forall|other: SocketAddress|
            other != address ==> #[trigger] with_session_ended(table, address)[other]
                == table[other],
{
    assert(with_session_ended(table, address).dom() =~= table.dom());
}

/// A session that has begun and ended leaves the counts as they were.
pub proof fn law_sessions_leave_no_trace_in_the_counts(
    table: Map<SocketAddress, usize>,
    address: SocketAddress,
)
    requires
        table.contains_key(address),
    ensures
        with_session_ended(with_session_begun(table, address), address) == table,
{
    assert(with_session_ended(with_session_begun(table, address), address) =~= table);
}

/// The pick serves no more sessions than any other server of the list, and where
/// several serve equally few it is the first of them. There is one unless the
/// list is empty.
pub proof fn law_picks_serve_the_fewest(
    table: Map<SocketAddress, usize>,
    servers: Seq<SocketAddress>,
)
    ensures
        forall|choice: int, i: int|
            #![trigger least_loaded(table, servers, choice), servers[i]]
            least_loaded(table, servers, choice) && 0 <= i < servers.len() ==> {
                &&& 0 <= choice < servers.len()
                &&& table[servers[choice]] <= table[servers[i]]
                &&& table[servers[choice]] == table[servers[i]] ==> choice <= i
            },
        servers.len() > 0 <==> exists|choice: int| least_loaded(table, servers, choice),
    decreases servers.len(),
{
    if servers.len() == 1 {
        assert(least_loaded(table, servers, 0));
    } else if servers.len() > 1 {
        let shorter = servers.drop_last();
        law_picks_serve_the_fewest(table, shorter);
        let best = choose|choice: int| least_loaded(table, shorter, choice);
        let last = servers.len() - 1;
        if table[servers[last]] < table[servers[best]] {
            assert forall|i: int| 0 <= i < last implies table[servers[last]]
                < #[trigger] table[servers[i]] by {
                assert(table[shorter[best]] <= table[shorter[i]]);
            }
            assert(least_loaded(table, servers, last));
        } else {
            assert forall|i: int| 0 <= i < servers.len() implies table[servers[best]]
                <= #[trigger] table[servers[i]] by {
                if i < last {
                    assert(table[shorter[best]] <= table[shorter[i]]);
                }
            }
            assert forall|i: int| 0 <= i < best implies table[servers[best]]
                < #[trigger] table[servers[i]] by {
                assert(table[shorter[best]] < table[shorter[i]]);
            }
            assert(least_loaded(table, servers, best));
        }
    }
    assert forall|choice: int, i: int|
        #![trigger least_loaded(table, servers, choice), servers[i]]
        least_loaded(table, servers, choice) && 0 <= i < servers.len() implies {
        &&& 0 <= choice < servers.len()
        &&& table[servers[choice]] <= table[servers[i]]
        &&& table[servers[choice]] == table[servers[i]] ==> choice <= i
    } by {
        assert(table[servers[choice]] <= table[servers[i]]);
    }
}

} // verus!
