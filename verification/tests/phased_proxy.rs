use l4_load_bearer::address::SocketAddress;
use l4_load_bearer::phased::{
    AcceptAction, AcceptEvent, Needs, Proxy, Stage, Turn, IDLE_TIMEOUT,
};
use l4_load_bearer::relay::{ReadOutcome, Reply, Side, WriteOutcome};
use l4_load_bearer::servers::ServerTable;

fn server(port: u16) -> SocketAddress {
    SocketAddress::V4 { ipv4: 0x7f00_0001, port }
}

fn received(bytes: &[u8]) -> Reply {
    Reply::Read(ReadOutcome::Received(bytes.to_vec()))
}

fn wrote(count: usize) -> Reply {
    Reply::Written(WriteOutcome::Wrote(count))
}

fn would_block() -> Reply {
    Reply::Read(ReadOutcome::WouldBlock)
}

fn watched(client: (bool, bool), server: (bool, bool)) -> Stage {
    Stage::Register {
        client: Needs { read: client.0, write: client.1 },
        server: Needs { read: server.0, write: server.1 },
    }
}

fn one_session() -> (Proxy, ServerTable, usize) {
    let mut table = ServerTable::new(&vec![server(9001)]);
    let mut proxy = Proxy::new();
    let key = proxy.open_session(&mut table, server(9001), 0);
    (proxy, table, key)
}

fn begin(proxy: &mut Proxy, table: &mut ServerTable, key: usize, side: Side) -> Turn {
    match proxy.begin_turn(table, key, side, true) {
        Some(turn) => turn,
        None => panic!("no session"),
    }
}

#[test]
fn a_new_proxy_is_empty() {
    let proxy = Proxy::new();
    assert_eq!(proxy.num_connections(), 0);
    assert_eq!(proxy.total_throughput(), 0);
    assert!(!proxy.contains(0));
    assert!(!proxy.is_done());
}

#[test]
fn opening_counts_the_session() {
    let mut table = ServerTable::new(&vec![server(9001), server(9002)]);
    let mut proxy = Proxy::new();
    let first = proxy.open_session(&mut table, server(9001), 1);
    let second = proxy.open_session(&mut table, server(9001), 2);
    assert_ne!(first, second);
    assert_eq!(proxy.num_connections(), 2);
    assert_eq!(table.connections(server(9001)), Some(2));
    assert_eq!(table.connections(server(9002)), Some(0));
    assert!(proxy.contains(first));
    assert!(proxy.contains(second));
    assert_eq!(proxy.pending(first, Side::Client).len(), 0);
}

#[test]
fn bytes_are_relayed_within_one_turn() {
    let (mut proxy, mut table, key) = one_session();
    let turn = begin(&mut proxy, &mut table, key, Side::Client);
    assert_eq!(turn.stage, Stage::Read);
    let turn = proxy.resume_turn(&mut table, turn, received(b"hello "), 5);
    assert_eq!(turn.stage, Stage::Read);
    let turn = proxy.resume_turn(&mut table, turn, received(b"world"), 6);
    assert_eq!(turn.stage, Stage::Read);
    let turn = proxy.resume_turn(&mut table, turn, would_block(), 7);
    assert_eq!(turn.stage, Stage::WriteServer);
    assert_eq!(proxy.pending(key, Side::Server).as_slice(), b"hello world");
    assert_eq!(proxy.total_throughput(), 11);
    let turn = proxy.resume_turn(&mut table, turn, wrote(4), 8);
    assert_eq!(turn.stage, Stage::WriteServer);
    assert_eq!(proxy.pending(key, Side::Server).as_slice(), b"o world");
    let turn = proxy.resume_turn(&mut table, turn, wrote(7), 9);
    assert_eq!(turn.stage, watched((true, false), (true, false)));
    assert!(turn.active);
    assert_eq!(proxy.pending(key, Side::Server).len(), 0);
}

#[test]
fn a_server_that_takes_no_more_is_watched_for_writing() {
    let (mut proxy, mut table, key) = one_session();
    let turn = begin(&mut proxy, &mut table, key, Side::Client);
    let turn = proxy.resume_turn(&mut table, turn, received(b"abc"), 1);
    let turn = proxy.resume_turn(&mut table, turn, would_block(), 1);
    let turn = proxy.resume_turn(&mut table, turn, wrote(0), 1);
    assert_eq!(turn.stage, Stage::WriteServer);
    let turn =
        proxy.resume_turn(&mut table, turn, Reply::Written(WriteOutcome::WouldBlock), 1);
    assert_eq!(turn.stage, watched((true, false), (true, true)));
    assert_eq!(proxy.pending(key, Side::Server).as_slice(), b"abc");
}

#[test]
fn the_end_of_a_stream_is_passed_on_at_once_if_nothing_waits() {
    let (mut proxy, mut table, key) = one_session();
    let turn = begin(&mut proxy, &mut table, key, Side::Client);
    let turn = proxy.resume_turn(&mut table, turn, received(b""), 1);
    assert_eq!(turn.stage, Stage::ShutdownAfterRead);
    let turn = proxy.resume_turn(&mut table, turn, Reply::Done, 1);
    assert_eq!(turn.stage, watched((false, false), (true, false)));
    // A side that has ended its stream is not read from again.
    let turn = begin(&mut proxy, &mut table, key, Side::Client);
    assert_eq!(turn.stage, watched((false, false), (true, false)));
}

#[test]
fn the_end_of_a_stream_waits_for_the_bytes_before_it() {
    let (mut proxy, mut table, key) = one_session();
    let turn = begin(&mut proxy, &mut table, key, Side::Server);
    let turn = proxy.resume_turn(&mut table, turn, received(b"reply"), 1);
    let turn = proxy.resume_turn(&mut table, turn, received(b""), 1);
    assert_eq!(turn.stage, Stage::WriteClient);
    let turn = proxy.resume_turn(&mut table, turn, wrote(5), 1);
    assert_eq!(turn.stage, Stage::ShutdownClient);
    let turn = proxy.resume_turn(&mut table, turn, Reply::Done, 1);
    assert_eq!(turn.stage, watched((true, false), (false, false)));
}

#[test]
fn a_failed_read_shuts_the_other_side_down_though_bytes_wait() {
    let (mut proxy, mut table, key) = one_session();
    let turn = begin(&mut proxy, &mut table, key, Side::Client);
    let turn = proxy.resume_turn(&mut table, turn, received(b"abc"), 1);
    let turn = proxy.resume_turn(&mut table, turn, Reply::Read(ReadOutcome::Failed), 1);
    assert_eq!(turn.stage, Stage::ShutdownAfterRead);
    let turn = proxy.resume_turn(&mut table, turn, Reply::Done, 1);
    assert_eq!(turn.stage, Stage::WriteServer);
    let turn = proxy.resume_turn(&mut table, turn, Reply::Written(WriteOutcome::Failed), 1);
    assert_eq!(turn.stage, Stage::Closed { backend: server(9001) });
    assert!(!proxy.contains(key));
}

#[test]
fn a_failed_write_closes_the_side_and_discards_its_bytes() {
    let (mut proxy, mut table, key) = one_session();
    let turn = begin(&mut proxy, &mut table, key, Side::Client);
    let turn = proxy.resume_turn(&mut table, turn, received(b"abc"), 1);
    let turn = proxy.resume_turn(&mut table, turn, would_block(), 1);
    let turn = proxy.resume_turn(&mut table, turn, Reply::Written(WriteOutcome::Failed), 1);
    assert_eq!(turn.stage, watched((true, false), (false, false)));
    assert_eq!(proxy.pending(key, Side::Server).len(), 0);
}

#[test]
fn a_session_closes_once_both_sides_have_ended() {
    let (mut proxy, mut table, key) = one_session();
    let turn = begin(&mut proxy, &mut table, key, Side::Client);
    let turn = proxy.resume_turn(&mut table, turn, received(b"q"), 1);
    let turn = proxy.resume_turn(&mut table, turn, received(b""), 1);
    let turn = proxy.resume_turn(&mut table, turn, wrote(1), 1);
    assert_eq!(turn.stage, Stage::ShutdownServer);
    proxy.resume_turn(&mut table, turn, Reply::Done, 1);
    let turn = begin(&mut proxy, &mut table, key, Side::Server);
    let turn = proxy.resume_turn(&mut table, turn, received(b"answer"), 2);
    let turn = proxy.resume_turn(&mut table, turn, received(b""), 2);
    let turn = proxy.resume_turn(&mut table, turn, wrote(6), 2);
    assert_eq!(turn.stage, Stage::ShutdownClient);
    let turn = proxy.resume_turn(&mut table, turn, Reply::Done, 2);
    assert_eq!(turn.stage, Stage::Closed { backend: server(9001) });
    assert_eq!(proxy.num_connections(), 0);
    assert_eq!(proxy.total_throughput(), 7);
    assert_eq!(table.connections(server(9001)), Some(0));
    assert!(proxy.begin_turn(&mut table, key, Side::Client, true).is_none());
}

#[test]
fn bytes_that_waited_are_written_when_the_socket_is_ready() {
    let (mut proxy, mut table, key) = one_session();
    let turn = begin(&mut proxy, &mut table, key, Side::Server);
    let turn = proxy.resume_turn(&mut table, turn, received(b"xyz"), 1);
    let turn = proxy.resume_turn(&mut table, turn, would_block(), 1);
    let turn =
        proxy.resume_turn(&mut table, turn, Reply::Written(WriteOutcome::WouldBlock), 1);
    assert_eq!(turn.stage, watched((true, true), (true, false)));
    let turn = match proxy.begin_turn(&mut table, key, Side::Client, false) {
        Some(turn) => turn,
        None => panic!("no session"),
    };
    assert_eq!(turn.stage, Stage::WriteClient);
    assert!(!turn.active);
    let turn = proxy.resume_turn(&mut table, turn, wrote(3), 2);
    assert_eq!(turn.stage, watched((true, false), (true, false)));
}

#[test]
fn the_session_idle_longest_expires_first() {
    let mut table = ServerTable::new(&vec![server(1), server(2)]);
    let mut proxy = Proxy::new();
    let a = proxy.open_session(&mut table, server(1), 10);
    let b = proxy.open_session(&mut table, server(2), 20);
    let c = proxy.open_session(&mut table, server(1), 30);
    // Activity moves the first session behind the others.
    let turn = begin(&mut proxy, &mut table, a, Side::Client);
    let turn = proxy.resume_turn(&mut table, turn, received(b"x"), 40);
    let turn = proxy.resume_turn(&mut table, turn, would_block(), 40);
    proxy.resume_turn(&mut table, turn, wrote(1), 41);

    assert_eq!(proxy.expire_next(&mut table, 20 + IDLE_TIMEOUT), None);
    assert_eq!(proxy.expire_next(&mut table, 21 + IDLE_TIMEOUT), Some((b, server(2))));
    assert_eq!(proxy.expire_next(&mut table, 21 + IDLE_TIMEOUT), None);
    assert_eq!(proxy.expire_next(&mut table, 100 + IDLE_TIMEOUT), Some((c, server(1))));
    assert_eq!(table.connections(server(1)), Some(1));
    assert_eq!(proxy.expire_next(&mut table, 100 + IDLE_TIMEOUT), Some((a, server(1))));
    assert_eq!(proxy.expire_next(&mut table, 100 + IDLE_TIMEOUT), None);
    assert_eq!(proxy.num_connections(), 0);
    assert_eq!(table.connections(server(2)), Some(0));
}

#[test]
fn a_clock_reading_before_the_last_activity_expires_nothing() {
    let mut table = ServerTable::new(&vec![server(1)]);
    let mut proxy = Proxy::new();
    proxy.open_session(&mut table, server(1), 500);
    assert_eq!(proxy.expire_next(&mut table, 0), None);
    assert_eq!(IDLE_TIMEOUT, 30_000_000_000);
}

#[test]
fn a_turn_without_activity_leaves_the_order() {
    let mut table = ServerTable::new(&vec![server(1)]);
    let mut proxy = Proxy::new();
    let a = proxy.open_session(&mut table, server(1), 10);
    let b = proxy.open_session(&mut table, server(1), 20);
    let turn = begin(&mut proxy, &mut table, a, Side::Client);
    let turn = proxy.resume_turn(&mut table, turn, would_block(), 30);
    assert!(!turn.active);
    assert_eq!(proxy.expire_next(&mut table, 100 + IDLE_TIMEOUT), Some((a, server(1))));
    assert_eq!(proxy.expire_next(&mut table, 100 + IDLE_TIMEOUT), Some((b, server(1))));
}

#[test]
fn keys_of_closed_sessions_are_free_again() {
    let mut table = ServerTable::new(&vec![server(1)]);
    let mut proxy = Proxy::new();
    let a = proxy.open_session(&mut table, server(1), 0);
    assert_eq!(proxy.expire_next(&mut table, 1 + IDLE_TIMEOUT), Some((a, server(1))));
    assert!(!proxy.contains(a));
    let b = proxy.open_session(&mut table, server(1), 2 + IDLE_TIMEOUT);
    assert!(proxy.contains(b));
    assert_eq!(proxy.num_connections(), 1);
}

#[test]
fn clients_go_to_the_server_with_the_fewest_sessions() {
    let servers = vec![server(1), server(2), server(3)];
    let mut table = ServerTable::new(&servers);
    let mut proxy = Proxy::new();
    assert_eq!(proxy.accept_step(&table, &servers, AcceptEvent::Ready), AcceptAction::Accept);
    assert_eq!(
        proxy.accept_step(&table, &servers, AcceptEvent::Accepted),
        AcceptAction::Connect(server(1))
    );
    proxy.open_session(&mut table, server(1), 0);
    assert_eq!(proxy.accept_step(&table, &servers, AcceptEvent::Opened), AcceptAction::Accept);
    assert_eq!(
        proxy.accept_step(&table, &servers, AcceptEvent::Accepted),
        AcceptAction::Connect(server(2))
    );
    assert_eq!(
        proxy.accept_step(&table, &servers, AcceptEvent::ConnectFailed),
        AcceptAction::Accept
    );
    assert_eq!(proxy.accept_step(&table, &servers, AcceptEvent::WouldBlock), AcceptAction::Stop);
    assert_eq!(proxy.accept_step(&table, &servers, AcceptEvent::Failed), AcceptAction::Stop);
    assert_eq!(proxy.accept_step(&table, &vec![], AcceptEvent::Accepted), AcceptAction::Accept);
}

#[test]
fn a_proxy_that_shuts_down_drains_its_sessions() {
    let (mut proxy, mut table, key) = one_session();
    proxy.shut_down();
    assert_eq!(
        proxy.accept_step(&table, &vec![server(9001)], AcceptEvent::Ready),
        AcceptAction::Stop
    );
    assert!(!proxy.is_done());
    assert_eq!(
        proxy.expire_next(&mut table, 1 + IDLE_TIMEOUT),
        Some((key, server(9001)))
    );
    assert!(proxy.is_done());
}
