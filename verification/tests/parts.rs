use l4_load_bearer::address::SocketAddress;
use l4_load_bearer::eager::eager_first_registration;
use l4_load_bearer::phased::{first_registration, Needs, Stage};
use l4_load_bearer::recency::{move_to_tail, remove_from_list};
use l4_load_bearer::registry::{
    interest_for, safe_register, Interest, RegistryAction, RegistryProgress, RegistryReply,
};
use l4_load_bearer::relay::{Relay, Side};
use l4_load_bearer::servers::{
    checked_servers, configured_backends, next_in_turn, ServerTable,
};
use l4_load_bearer::session::ProxySession;
use l4_load_bearer::tokens::{route, session_token, Route, LISTENER_TOKEN, WAKER_TOKEN};
use slab::Slab;

fn server(port: u16) -> SocketAddress {
    SocketAddress::V4 { ipv4: 0x7f00_0001, port }
}

fn list_of(count: usize) -> (Slab<ProxySession>, Option<usize>, Option<usize>) {
    let mut sessions = Slab::new();
    for i in 0..count {
        let key = sessions.insert(ProxySession {
            relay: Relay::new(),
            session_backend: server(1),
            last_activity: 0,
            prev: if i == 0 { None } else { Some(i - 1) },
            next: if i + 1 == count { None } else { Some(i + 1) },
        });
        assert_eq!(key, i);
    }
    if count == 0 {
        (sessions, None, None)
    } else {
        (sessions, Some(0), Some(count - 1))
    }
}

fn forwards(sessions: &Slab<ProxySession>, head: Option<usize>) -> Vec<usize> {
    let mut keys = Vec::new();
    let mut at = head;
    while let Some(key) = at {
        keys.push(key);
        at = sessions[key].next;
    }
    keys
}

fn backwards(sessions: &Slab<ProxySession>, tail: Option<usize>) -> Vec<usize> {
    let mut keys = Vec::new();
    let mut at = tail;
    while let Some(key) = at {
        keys.push(key);
        at = sessions[key].prev;
    }
    keys
}

#[test]
fn moving_to_the_tail() {
    let (mut sessions, mut head, mut tail) = list_of(4);
    move_to_tail(&mut sessions, &mut head, &mut tail, 1);
    assert_eq!(forwards(&sessions, head), vec![0, 2, 3, 1]);
    assert_eq!(backwards(&sessions, tail), vec![1, 3, 2, 0]);
    move_to_tail(&mut sessions, &mut head, &mut tail, 0);
    assert_eq!(forwards(&sessions, head), vec![2, 3, 1, 0]);
    move_to_tail(&mut sessions, &mut head, &mut tail, 0);
    assert_eq!(forwards(&sessions, head), vec![2, 3, 1, 0]);
    assert_eq!(backwards(&sessions, tail), vec![0, 1, 3, 2]);
    let (mut sessions, mut head, mut tail) = list_of(1);
    move_to_tail(&mut sessions, &mut head, &mut tail, 0);
    assert_eq!((head, tail), (Some(0), Some(0)));
}

#[test]
fn removing_from_the_list() {
    let (mut sessions, mut head, mut tail) = list_of(4);
    remove_from_list(&mut sessions, &mut head, &mut tail, 2);
    assert_eq!(forwards(&sessions, head), vec![0, 1, 3]);
    assert_eq!(backwards(&sessions, tail), vec![3, 1, 0]);
    assert_eq!(sessions[2].prev, Some(1));
    assert_eq!(sessions[2].next, Some(3));
    remove_from_list(&mut sessions, &mut head, &mut tail, 0);
    remove_from_list(&mut sessions, &mut head, &mut tail, 3);
    assert_eq!(forwards(&sessions, head), vec![1]);
    remove_from_list(&mut sessions, &mut head, &mut tail, 1);
    assert_eq!((head, tail), (None, None));
}

fn links(sessions: &Slab<ProxySession>) -> Vec<(usize, Option<usize>, Option<usize>)> {
    sessions.iter().map(|(key, session)| (key, session.prev, session.next)).collect()
}

fn add_unlinked(sessions: &mut Slab<ProxySession>) -> usize {
    sessions.insert(ProxySession {
        relay: Relay::new(),
        session_backend: server(2),
        last_activity: 0,
        prev: None,
        next: None,
    })
}

#[test]
fn moving_what_is_in_no_list_appends_it() {
    let (mut sessions, mut head, mut tail) = list_of(0);
    let first = add_unlinked(&mut sessions);
    move_to_tail(&mut sessions, &mut head, &mut tail, first);
    assert_eq!((head, tail), (Some(first), Some(first)));
    assert_eq!(links(&sessions), vec![(0, None, None)]);
    let second = add_unlinked(&mut sessions);
    move_to_tail(&mut sessions, &mut head, &mut tail, second);
    assert_eq!(forwards(&sessions, head), vec![first, second]);
    assert_eq!(backwards(&sessions, tail), vec![second, first]);
}

#[test]
fn moving_after_removing_is_moving() {
    for key in 0..4 {
        let (mut sessions, mut head, mut tail) = list_of(4);
        remove_from_list(&mut sessions, &mut head, &mut tail, key);
        move_to_tail(&mut sessions, &mut head, &mut tail, key);
        let (mut moved, mut moved_head, mut moved_tail) = list_of(4);
        move_to_tail(&mut moved, &mut moved_head, &mut moved_tail, key);
        assert_eq!(forwards(&sessions, head), forwards(&moved, moved_head));
        assert_eq!(backwards(&sessions, tail), backwards(&moved, moved_tail));
    }
}

#[test]
fn repeated_list_operations_change_nothing() {
    for key in 0..4 {
        let (mut sessions, mut head, mut tail) = list_of(4);
        remove_from_list(&mut sessions, &mut head, &mut tail, key);
        let (links_before, head_before, tail_before) = (links(&sessions), head, tail);
        remove_from_list(&mut sessions, &mut head, &mut tail, key);
        assert_eq!(links(&sessions), links_before);
        assert_eq!((head, tail), (head_before, tail_before));

        let (mut sessions, mut head, mut tail) = list_of(4);
        move_to_tail(&mut sessions, &mut head, &mut tail, key);
        let (links_before, head_before, tail_before) = (links(&sessions), head, tail);
        move_to_tail(&mut sessions, &mut head, &mut tail, key);
        assert_eq!(links(&sessions), links_before);
        assert_eq!((head, tail), (head_before, tail_before));
    }
    let (mut sessions, mut head, mut tail) = list_of(2);
    let key = add_unlinked(&mut sessions);
    remove_from_list(&mut sessions, &mut head, &mut tail, key);
    assert_eq!(links(&sessions), vec![(0, None, Some(1)), (1, Some(0), None), (2, None, None)]);
    assert_eq!((head, tail), (Some(0), Some(1)));
}

#[test]
fn tokens_lead_back_to_their_session() {
    assert_eq!(session_token(5, Side::Client), 10);
    assert_eq!(session_token(5, Side::Server), 11);
    assert_eq!(route(10), Route::Session { key: 5, side: Side::Client });
    assert_eq!(route(11), Route::Session { key: 5, side: Side::Server });
    assert_eq!(route(LISTENER_TOKEN), Route::Listener);
    assert_eq!(route(WAKER_TOKEN), Route::Waker);
    let last = usize::MAX / 2 - 1;
    assert_eq!(
        route(session_token(last, Side::Server)),
        Route::Session { key: last, side: Side::Server }
    );
    // The next key would take the tokens of the waker and the listener.
    assert_eq!(session_token(last + 1, Side::Client), WAKER_TOKEN);
    assert_eq!(session_token(last + 1, Side::Server), LISTENER_TOKEN);
    assert_eq!(session_token(usize::MAX, Side::Client), usize::MAX - 1);
}

#[test]
fn sessions_start_out_watched_for_reading() {
    let watched = Needs { read: true, write: false };
    assert_eq!(first_registration(), Stage::Register { client: watched, server: watched });
    assert_eq!(eager_first_registration(), Interest::Readable);
    assert_eq!(interest_for(true, false), Interest::Readable);
    assert_eq!(interest_for(false, true), Interest::Writable);
    assert_eq!(interest_for(true, true), Interest::ReadableWritable);
}

#[test]
fn registrations() {
    let start = RegistryProgress::Start;
    assert_eq!(safe_register(false, false, start), RegistryAction::Deregister);
    assert_eq!(
        safe_register(true, false, start),
        RegistryAction::Reregister(Interest::Readable)
    );
    assert_eq!(
        safe_register(false, true, start),
        RegistryAction::Reregister(Interest::Writable)
    );
    assert_eq!(
        safe_register(true, true, start),
        RegistryAction::Reregister(Interest::ReadableWritable)
    );
    let done = RegistryProgress::Reregistered(RegistryReply::Done);
    let missing = RegistryProgress::Reregistered(RegistryReply::NotFound);
    let failed = RegistryProgress::Reregistered(RegistryReply::Failed);
    assert_eq!(safe_register(true, true, done), RegistryAction::Settled);
    assert_eq!(
        safe_register(true, true, missing),
        RegistryAction::Register(Interest::ReadableWritable)
    );
    assert_eq!(safe_register(false, true, missing), RegistryAction::Register(Interest::Writable));
    assert_eq!(safe_register(true, false, failed), RegistryAction::Abandoned);
    assert_eq!(Interest::Readable.add(Interest::Readable), Interest::Readable);
    assert_eq!(Interest::Writable.add(Interest::Writable), Interest::Writable);
    assert_eq!(Interest::Writable.add(Interest::Readable), Interest::ReadableWritable);
}

#[test]
fn server_tables() {
    let mut table = ServerTable::new(&vec![server(1), server(2), server(1)]);
    assert_eq!(table.connections(server(1)), Some(0));
    assert_eq!(table.connections(server(3)), None);
    assert!(table.knows_all(&vec![server(2), server(1)]));
    assert!(!table.knows_all(&vec![server(2), server(3)]));
    table.begin_session(server(1));
    table.begin_session(server(1));
    table.begin_session(server(2));
    table.end_session(server(1));
    assert_eq!(table.connections(server(1)), Some(1));
    // A new configuration keeps the counts of the servers that stay.
    table.add_servers(&vec![server(2), server(3)]);
    assert_eq!(table.connections(server(2)), Some(1));
    assert_eq!(table.connections(server(3)), Some(0));
    table.retain_listed(&vec![server(2), server(3)]);
    assert_eq!(table.connections(server(1)), None);
    assert_eq!(table.connections(server(2)), Some(1));
    // A session may end on a server that is no longer known.
    table.end_session(server(1));
    assert_eq!(table.connections(server(1)), None);
}

#[test]
fn a_server_that_comes_back_is_counted_from_zero() {
    let mut table = ServerTable::new(&vec![server(1)]);
    table.begin_session(server(1));
    table.retain_listed(&vec![]);
    table.add_servers(&vec![server(1)]);
    assert_eq!(table.connections(server(1)), Some(0));
    table.end_session(server(1));
    assert_eq!(table.connections(server(1)), Some(usize::MAX));
}

#[test]
fn the_first_server_with_the_fewest_sessions_is_picked() {
    let servers = vec![server(1), server(2), server(3)];
    let mut table = ServerTable::new(&servers);
    assert_eq!(table.least_connections(&servers), Some(server(1)));
    table.begin_session(server(1));
    assert_eq!(table.least_connections(&servers), Some(server(2)));
    table.begin_session(server(2));
    table.begin_session(server(2));
    table.begin_session(server(3));
    assert_eq!(table.least_connections(&servers), Some(server(1)));
    assert_eq!(table.least_connections(&vec![server(2), server(3)]), Some(server(3)));
    assert_eq!(table.least_connections(&vec![]), None);
    let mut full = ServerTable::new(&vec![server(1), server(2)]);
    full.end_session(server(1));
    full.end_session(server(2));
    assert_eq!(full.least_connections(&vec![server(2), server(1)]), Some(server(2)));
}

#[test]
fn invalid_addresses_are_skipped() {
    let v6 = SocketAddress::V6 { ipv6: 1, port: 80, flowinfo: 0, scope_id: 0 };
    assert_eq!(
        configured_backends(&vec![Some(server(1)), None, Some(v6), None]),
        vec![server(1), v6]
    );
    assert_eq!(configured_backends(&vec![None]), vec![]);
}

#[test]
fn servers_that_do_not_answer_are_not_healthy() {
    let servers = vec![server(1), server(2), server(3)];
    assert_eq!(
        checked_servers(&servers, &vec![true, false, true]),
        vec![server(1), server(3)]
    );
    assert_eq!(checked_servers(&servers, &vec![false, false, false]), vec![]);
}

#[test]
fn turns_go_round() {
    let servers = vec![server(1), server(2), server(3)];
    let mut cursor = 4;
    assert_eq!(next_in_turn(&servers, &mut cursor), Some(server(2)));
    assert_eq!(next_in_turn(&servers, &mut cursor), Some(server(3)));
    assert_eq!(next_in_turn(&servers, &mut cursor), Some(server(1)));
    assert_eq!(cursor, 7);
    assert_eq!(next_in_turn(&vec![], &mut cursor), None);
    assert_eq!(cursor, 7);
    let mut cursor = usize::MAX;
    next_in_turn(&servers, &mut cursor);
    assert_eq!(cursor, 0);
}

#[test]
fn relays() {
    let mut relay = Relay::new();
    relay.receive(Side::Client, &b"abc".to_vec());
    relay.receive(Side::Server, &b"xy".to_vec());
    assert_eq!(relay.pending(Side::Server).as_slice(), b"abc");
    assert_eq!(relay.pending(Side::Client).as_slice(), b"xy");
    relay.sent(Side::Server, 1);
    assert_eq!(relay.pending(Side::Server).as_slice(), b"bc");
    relay.sent(Side::Client, 2);
    relay.close(Side::Client);
    relay.close(Side::Server);
    assert!(relay.is_closed(Side::Client));
    assert!(!relay.is_finished());
    relay.discard(Side::Server);
    assert!(relay.is_finished());
}

#[test]
fn a_slot_is_small() {
    assert!(std::mem::size_of::<ProxySession>() <= 240);
}

#[test]
fn healthy_servers_stay_known() {
    let mut table = ServerTable::new(&vec![server(1), server(2)]);
    let configured = vec![server(2), server(3)];
    table.add_servers(&configured);
    assert!(table.knows_all(&vec![server(1), server(2), server(3)]));
    let healthy = checked_servers(&configured, &vec![true, true]);
    table.retain_listed(&configured);
    assert!(table.knows_all(&healthy));
    assert_eq!(table.connections(server(1)), None);
}
