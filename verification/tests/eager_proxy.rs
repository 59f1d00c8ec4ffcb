use l4_load_bearer::address::SocketAddress;
use l4_load_bearer::eager::{
    EagerAcceptAction, EagerAcceptEvent, EagerProxy, EagerStage, EagerTurn,
};
use l4_load_bearer::registry::Interest;
use l4_load_bearer::relay::{ReadOutcome, Reply, Side, WriteOutcome};

fn server(port: u16) -> SocketAddress {
    SocketAddress::V4 { ipv4: 0x7f00_0001, port }
}

fn received(bytes: &[u8]) -> Reply {
    Reply::Read(ReadOutcome::Received(bytes.to_vec()))
}

fn wrote(count: usize) -> Reply {
    Reply::Written(WriteOutcome::Wrote(count))
}

fn one_session() -> (EagerProxy, usize) {
    let mut proxy = EagerProxy::new();
    let key = proxy.open_session(server(9001));
    (proxy, key)
}

/// Answers each stage with the next reply and returns the stages passed through.
fn run(proxy: &mut EagerProxy, begun: EagerTurn, replies: Vec<Reply>) -> Vec<EagerStage> {
    let mut turn = begun;
    let mut stages = vec![turn.stage];
    for reply in replies {
        turn = proxy.resume_turn(turn, reply);
        stages.push(turn.stage);
    }
    stages
}

#[test]
fn eager_bytes_are_pushed_as_they_come() {
    let (mut proxy, key) = one_session();
    let turn = proxy.begin_turn(key, Side::Client, true, false);
    let stages = run(
        &mut proxy,
        turn,
        vec![
            received(b"abc"),
            wrote(2),
            wrote(1),
            Reply::Done,
            Reply::Read(ReadOutcome::WouldBlock),
        ],
    );
    assert_eq!(
        stages,
        vec![
            EagerStage::Read,
            EagerStage::Push,
            EagerStage::Push,
            EagerStage::RegisterAfterPush(Interest::Readable),
            EagerStage::Read,
            EagerStage::Over,
        ]
    );
    assert_eq!(proxy.total_throughput(), 3);
}

#[test]
fn eager_bytes_that_are_not_taken_wait() {
    let (mut proxy, key) = one_session();
    let turn = proxy.begin_turn(key, Side::Client, true, false);
    let stages = run(
        &mut proxy,
        turn,
        vec![received(b"abc"), Reply::Written(WriteOutcome::WouldBlock), Reply::Done],
    );
    assert_eq!(stages[2], EagerStage::RegisterAfterPush(Interest::ReadableWritable));
    assert_eq!(stages[3], EagerStage::Read);
    assert_eq!(proxy.pending(key, Side::Server).as_slice(), b"abc");
    // A failure leaves the bytes where they are.
    let turn = proxy.begin_turn(key, Side::Client, true, false);
    let stages = run(
        &mut proxy,
        turn,
        vec![
            received(b"d"),
            Reply::Written(WriteOutcome::Failed),
            Reply::Done,
            Reply::Read(ReadOutcome::Failed),
        ],
    );
    assert_eq!(stages[4], EagerStage::Over);
    assert_eq!(proxy.pending(key, Side::Server).as_slice(), b"abcd");
    let turn = proxy.begin_turn(key, Side::Client, true, false);
    let stages = run(&mut proxy, turn, vec![received(b"e"), wrote(0)]);
    assert_eq!(stages[2], EagerStage::RegisterAfterPush(Interest::ReadableWritable));
}

#[test]
fn eager_end_of_stream_with_nothing_waiting() {
    let (mut proxy, key) = one_session();
    let turn = proxy.begin_turn(key, Side::Server, true, false);
    let stages = run(&mut proxy, turn, vec![received(b""), Reply::Done, Reply::Done]);
    assert_eq!(
        stages,
        vec![
            EagerStage::Read,
            EagerStage::ShutdownAtEnd,
            EagerStage::DeregisterAtEnd,
            EagerStage::Over,
        ]
    );
}

#[test]
fn eager_end_of_stream_with_bytes_waiting() {
    let (mut proxy, key) = one_session();
    let turn = proxy.begin_turn(key, Side::Client, true, false);
    let stages = run(
        &mut proxy,
        turn,
        vec![
            received(b"abc"),
            Reply::Written(WriteOutcome::WouldBlock),
            Reply::Done,
            received(b""),
            Reply::Done,
        ],
    );
    assert_eq!(stages[4], EagerStage::RegisterAtEnd(Interest::ReadableWritable));
    assert_eq!(stages[5], EagerStage::Over);
    // The server can take the bytes now: it is told that no more come.
    let turn = proxy.begin_turn(key, Side::Server, false, true);
    let stages = run(
        &mut proxy,
        turn,
        vec![wrote(2), Reply::Done, wrote(1), Reply::Done, Reply::Done],
    );
    assert_eq!(
        stages,
        vec![
            EagerStage::Flush,
            EagerStage::RegisterAfterFlush(Interest::ReadableWritable),
            EagerStage::Flush,
            EagerStage::ShutdownAfterFlush,
            EagerStage::DeregisterAfterFlush,
            EagerStage::Over,
        ]
    );
    assert!(proxy.contains(key));
}

#[test]
fn eager_side_that_has_taken_everything_stays_open() {
    let (mut proxy, key) = one_session();
    let turn = proxy.begin_turn(key, Side::Client, true, false);
    run(
        &mut proxy,
        turn,
        vec![
            received(&[1, 2, 3]),
            Reply::Written(WriteOutcome::WouldBlock),
            Reply::Done,
            Reply::Read(ReadOutcome::WouldBlock),
        ],
    );
    assert_eq!(proxy.pending(key, Side::Server).as_slice(), &[1, 2, 3]);
    // The server takes all that waits for it, and is still read from.
    let turn = proxy.begin_turn(key, Side::Server, false, true);
    let stages = run(&mut proxy, turn, vec![wrote(3), Reply::Done]);
    assert_eq!(
        stages,
        vec![
            EagerStage::Flush,
            EagerStage::RegisterAfterFlush(Interest::Readable),
            EagerStage::Over,
        ]
    );
    // The answer reaches the client.
    let turn = proxy.begin_turn(key, Side::Server, true, true);
    let stages = run(
        &mut proxy,
        turn,
        vec![received(b"answer"), wrote(6), Reply::Done, Reply::Read(ReadOutcome::WouldBlock)],
    );
    assert_eq!(
        stages,
        vec![
            EagerStage::Read,
            EagerStage::Push,
            EagerStage::RegisterAfterPush(Interest::Readable),
            EagerStage::Read,
            EagerStage::Over,
        ]
    );
    // The client ends its stream: the session lives on until the server does too.
    let turn = proxy.begin_turn(key, Side::Client, true, false);
    let stages = run(&mut proxy, turn, vec![received(b""), Reply::Done, Reply::Done]);
    assert_eq!(stages[3], EagerStage::Over);
    assert!(proxy.contains(key));
}

#[test]
fn eager_side_that_takes_none_of_the_bytes_is_closed() {
    let (mut proxy, key) = one_session();
    let turn = proxy.begin_turn(key, Side::Client, true, false);
    run(
        &mut proxy,
        turn,
        vec![
            received(b"abc"),
            Reply::Written(WriteOutcome::WouldBlock),
            Reply::Done,
            Reply::Read(ReadOutcome::WouldBlock),
        ],
    );
    let turn = proxy.begin_turn(key, Side::Server, false, true);
    let stages = run(&mut proxy, turn, vec![wrote(0), Reply::Done, Reply::Done]);
    assert_eq!(
        stages,
        vec![
            EagerStage::Flush,
            EagerStage::ShutdownOnRefusal,
            EagerStage::DeregisterOnRefusal,
            EagerStage::Over,
        ]
    );
    assert_eq!(proxy.pending(key, Side::Server).as_slice(), b"abc");
}

#[test]
fn eager_bytes_pushed_after_the_end_shut_the_peer_down() {
    let (mut proxy, key) = one_session();
    let turn = proxy.begin_turn(key, Side::Client, true, false);
    run(&mut proxy, turn, vec![received(b""), Reply::Done, Reply::Done]);
    let turn = proxy.begin_turn(key, Side::Client, true, false);
    let stages = run(
        &mut proxy,
        turn,
        vec![received(b"z"), wrote(1), Reply::Done, Reply::Done, Reply::Done],
    );
    assert_eq!(
        stages,
        vec![
            EagerStage::Read,
            EagerStage::Push,
            EagerStage::ShutdownAfterPush,
            EagerStage::DeregisterAfterPush,
            EagerStage::RegisterAfterPush(Interest::Readable),
            EagerStage::Read,
        ]
    );
}

#[test]
fn eager_session_closes_once_both_sides_have_ended() {
    let (mut proxy, key) = one_session();
    proxy.shut_down();
    assert!(!proxy.is_done());
    let turn = proxy.begin_turn(key, Side::Client, true, true);
    run(&mut proxy, turn, vec![received(b""), Reply::Done, Reply::Done]);
    assert!(proxy.contains(key));
    let turn = proxy.begin_turn(key, Side::Server, true, true);
    let stages = run(&mut proxy, turn, vec![received(b""), Reply::Done, Reply::Done]);
    assert_eq!(stages[3], EagerStage::Closed);
    assert!(!proxy.contains(key));
    assert_eq!(proxy.num_connections(), 0);
    assert!(proxy.is_done());
}

#[test]
fn eager_flush_that_blocks_or_fails_ends_the_turn() {
    let (mut proxy, key) = one_session();
    let turn = proxy.begin_turn(key, Side::Server, true, false);
    run(
        &mut proxy,
        turn,
        vec![received(b"abc"), Reply::Written(WriteOutcome::WouldBlock), Reply::Done],
    );
    let turn = proxy.begin_turn(key, Side::Client, false, true);
    let stages = run(&mut proxy, turn, vec![Reply::Written(WriteOutcome::WouldBlock)]);
    assert_eq!(stages, vec![EagerStage::Flush, EagerStage::Over]);
    let turn = proxy.begin_turn(key, Side::Client, false, true);
    let stages = run(&mut proxy, turn, vec![Reply::Written(WriteOutcome::Failed)]);
    assert_eq!(stages, vec![EagerStage::Flush, EagerStage::Over]);
    assert_eq!(proxy.pending(key, Side::Client).as_slice(), b"abc");
    // Without bytes that wait there is nothing to flush.
    let turn = proxy.begin_turn(key, Side::Server, false, true);
    assert_eq!(turn.stage, EagerStage::Over);
}

#[test]
fn eager_servers_are_picked_in_turn() {
    let servers = vec![server(1), server(2)];
    let mut proxy = EagerProxy::new();
    assert_eq!(
        proxy.accept_step(&servers, EagerAcceptEvent::Ready),
        EagerAcceptAction::Accept
    );
    let mut picked = Vec::new();
    for _ in 0..3 {
        picked.push(proxy.accept_step(&servers, EagerAcceptEvent::Accepted));
        assert_eq!(
            proxy.accept_step(&servers, EagerAcceptEvent::Opened),
            EagerAcceptAction::Accept
        );
    }
    assert_eq!(
        picked,
        vec![
            EagerAcceptAction::Connect(server(1)),
            EagerAcceptAction::Connect(server(2)),
            EagerAcceptAction::Connect(server(1)),
        ]
    );
    assert_eq!(
        proxy.accept_step(&vec![], EagerAcceptEvent::Accepted),
        EagerAcceptAction::Accept
    );
    assert_eq!(
        proxy.accept_step(&servers, EagerAcceptEvent::Failed),
        EagerAcceptAction::Accept
    );
    assert_eq!(
        proxy.accept_step(&servers, EagerAcceptEvent::WouldBlock),
        EagerAcceptAction::Stop
    );
    proxy.shut_down();
    assert_eq!(proxy.accept_step(&servers, EagerAcceptEvent::Ready), EagerAcceptAction::Stop);
}
