//! The bytes in flight between a client and its backend server.

use vstd::prelude::*;

verus! {

/// One end of a proxied connection.
#[derive(Clone, Copy, Debug, PartialEq, Eq, Structural)]
pub enum Side {
    Client,
    Server,
}

impl Side {
    /// The other end of the connection.
    pub open spec fn peer_spec(self) -> Side {
        match self {
            Side::Client => Side::Server,
            Side::Server => Side::Client,
        }
    }

    /// The other end of the connection.
    #[verifier::when_used_as_spec(peer_spec)]
    pub fn peer(self) -> (other: Side)
        ensures
            other == self.peer_spec(),
    {
        match self {
            Side::Client => Side::Server,
            Side::Server => Side::Client,
        }
    }
}

/// What came of one attempt to read from a socket. `Received` with no bytes is
/// the end of the stream.
#[derive(Debug)]
pub enum ReadOutcome {
    Received(Vec<u8>),
    WouldBlock,
    Failed,
}

/// What came of one attempt to write to a socket: how many bytes it took, or
/// why it took none.
#[derive(Clone, Copy, Debug, PartialEq, Eq, Structural)]
pub enum WriteOutcome {
    Wrote(usize),
    WouldBlock,
    Failed,
}

/// What a [`ReadOutcome`] holds.
#[verifier::ext_equal]
pub enum ReadModel {
    Received(Seq<u8>),
    WouldBlock,
    Failed,
}

impl View for ReadOutcome {
    type V = ReadModel;

    open spec fn view(&self) -> ReadModel {
        match self {
            ReadOutcome::Received(bytes) => ReadModel::Received(bytes@),
            ReadOutcome::WouldBlock => ReadModel::WouldBlock,
            ReadOutcome::Failed => ReadModel::Failed,
        }
    }
}

/// What came of the operation that was asked for.
#[derive(Debug)]
pub enum Reply {
    Read(ReadOutcome),
    Written(WriteOutcome),
    /// An operation whose outcome does not matter.
    Done,
}

/// What a [`Reply`] holds.
#[verifier::ext_equal]
pub enum ReplyModel {
    Read(ReadModel),
    Written(WriteOutcome),
    Done,
}

impl View for Reply {
    type V = ReplyModel;

    open spec fn view(&self) -> ReplyModel {
        match self {
            Reply::Read(outcome) => ReplyModel::Read(outcome@),
            Reply::Written(outcome) => ReplyModel::Written(*outcome),
            Reply::Done => ReplyModel::Done,
        }
    }
}

/// How many bytes a reply has brought in.
pub open spec fn bytes_in(reply: ReplyModel) -> nat {
    match reply {
        ReplyModel::Read(ReadModel::Received(bytes)) => bytes.len(),
        _ => 0,
    }
}

/// The bytes that wait to be sent on to each side, and which of the two sides
/// has stopped sending.
#[derive(Debug)]
pub struct Relay {
    pub client_buffer: Vec<u8>,
    pub server_buffer: Vec<u8>,
    pub client_closed: bool,
    pub server_closed: bool,
}

/// What a [`Relay`] holds.
#[verifier::ext_equal]
pub struct RelayModel {
    pub client_buffer: Seq<u8>,
    pub server_buffer: Seq<u8>,
    pub client_closed: bool,
    pub server_closed: bool,
}

impl RelayModel {
    /// A connection that has just been made.
    pub open spec fn fresh() -> RelayModel {
        RelayModel {
            client_buffer: Seq::empty(),
            server_buffer: Seq::empty(),
            client_closed: false,
            server_closed: false,
        }
    }

    /// Whether nothing more is to be read from the side.
    pub open spec fn closed(self, side: Side) -> bool {
        match side {
            Side::Client => self.client_closed,
            Side::Server => self.server_closed,
        }
    }

    /// The bytes that wait to be written to the side.
    pub open spec fn buffer_to(self, side: Side) -> Seq<u8> {
        match side {
            Side::Client => self.client_buffer,
            Side::Server => self.server_buffer,
        }
    }

    pub open spec fn with_closed(self, side: Side) -> RelayModel {
        match side {
            Side::Client => RelayModel { client_closed: true, ..self },
            Side::Server => RelayModel { server_closed: true, ..self },
        }
    }

    pub open spec fn with_buffer(self, side: Side, bytes: Seq<u8>) -> RelayModel {
        match side {
            Side::Client => RelayModel { client_buffer: bytes, ..self },
            Side::Server => RelayModel { server_buffer: bytes, ..self },
        }
    }

    /// Neither side sends any more and nothing waits to be sent on.
    pub open spec fn finished(self) -> bool {
        &&& self.client_closed
        &&& self.server_closed
        &&& self.client_buffer.len() == 0
        &&& self.server_buffer.len() == 0
    }

    /// The bytes read from one side wait for the other.
    pub open spec fn with_received(self, from: Side, bytes: Seq<u8>) -> RelayModel {
        self.with_buffer(from.peer(), self.buffer_to(from.peer()) + bytes)
    }

    /// The first `count` bytes that waited for a side have been sent.
    pub open spec fn with_sent(self, to: Side, count: int) -> RelayModel {
        self.with_buffer(to, self.buffer_to(to).skip(count))
    }
}

impl View for Relay {
    type V = RelayModel;

    open spec fn view(&self) -> RelayModel {
        RelayModel {
            client_buffer: self.client_buffer@,
            server_buffer: self.server_buffer@,
            client_closed: self.client_closed,
            server_closed: self.server_closed,
        }
    }
}

impl Relay {
    /// A connection that has just been made.
    pub fn new() -> (relay: Relay)
        ensures
            relay@ == RelayModel::fresh(),
    {
        Relay {
            client_buffer: Vec::new(),
            server_buffer: Vec::new(),
            client_closed: false,
            server_closed: false,
        }
    }

    /// Whether nothing more is to be read from the side.
    pub fn is_closed(&self, side: Side) -> (closed: bool)
        ensures
            closed == self@.closed(side),
    {
        match side {
            Side::Client => self.client_closed,
            Side::Server => self.server_closed,
        }
    }

    /// The bytes that wait to be written to the side.
    pub fn pending(&self, side: Side) -> (bytes: &Vec<u8>)
        ensures
            bytes@ == self@.buffer_to(side),
    {
        match side {
            Side::Client => &self.client_buffer,
            Side::Server => &self.server_buffer,
        }
    }

    /// Whether neither side sends any more and nothing waits to be sent on.
    pub fn is_finished(&self) -> (finished: bool)
        ensures
            finished == self@.finished(),
    {
        self.client_closed && self.server_closed && self.client_buffer.is_empty()
            && self.server_buffer.is_empty()
    }

    /// Nothing more is to be read from the side.
    pub fn close(&mut self, side: Side)
        ensures
            final(self)@ == old(self)@.with_closed(side),
    {
        match side {
            Side::Client => {
                self.client_closed = true;
            },
            Side::Server => {
                self.server_closed = true;
            },
        }
    }

    /// The bytes read from one side wait for the other.
    pub fn receive(&mut self, from: Side, bytes: &Vec<u8>)
        ensures
            final(self)@ == old(self)@.with_received(from, bytes@),
    {
        match from {
            Side::Client => {
                self.server_buffer.extend_from_slice(bytes.as_slice());
                assert(self.server_buffer@ =~= old(self).server_buffer@ + bytes@);
            },
            Side::Server => {
                self.client_buffer.extend_from_slice(bytes.as_slice());
                assert(self.client_buffer@ =~= old(self).client_buffer@ + bytes@);
            },
        }
    }

    /// The first `count` bytes that waited for a side have been sent.
    pub fn sent(&mut self, to: Side, count: usize)
        requires
            count <= old(self)@.buffer_to(to).len(),
        ensures
            final(self)@ == old(self)@.with_sent(to, count as int),
    {
        match to {
            Side::Client => {
                self.client_buffer = self.client_buffer.split_off(count);
            },
            Side::Server => {
                self.server_buffer = self.server_buffer.split_off(count);
            },
        }
    }

    /// Gives up the bytes that waited for a side.
    pub fn discard(&mut self, to: Side)
        ensures
            final(self)@ == old(self)@.with_buffer(to, Seq::empty()),
    {
        match to {
            Side::Client => self.client_buffer.clear(),
            Side::Server => self.server_buffer.clear(),
        }
    }
}

/// Each side has one peer, which is the other side.
pub proof fn law_sides_face_each_other(side: Side)
    ensures
        side.peer() != side,
        side.peer().peer() == side,
{
}

/// Each side has bytes that wait for it and a state of its own.
pub proof fn law_sides_are_told_apart(relay: RelayModel)
    ensures
        relay.buffer_to(Side::Client) == relay.client_buffer,
        relay.buffer_to(Side::Server) == relay.server_buffer,
        relay.closed(Side::Client) <==> relay.client_closed,
        relay.closed(Side::Server) <==> relay.server_closed,
{
}

/// On a new connection nothing waits and both sides are open.
pub proof fn law_new_connections_are_open_and_empty(side: Side)
    ensures
        RelayModel::fresh().buffer_to(side).len() == 0,
        !RelayModel::fresh().closed(side),
{
}

/// Closing a side closes it for good, and changes nothing else.
pub proof fn law_closing_touches_one_side(relay: RelayModel, side: Side)
    ensures
        relay.with_closed(side).closed(side),
        relay.with_closed(side).closed(side.peer()) == relay.closed(side.peer()),
        relay.with_closed(side).buffer_to(side) == relay.buffer_to(side),
        relay.with_closed(side).buffer_to(side.peer()) == relay.buffer_to(side.peer()),
{
}

/// What is read from a side waits for the other, behind what waited before, and
/// nothing else changes. Bytes that come in two reads wait as if they had come in
/// one.
pub proof fn law_received_bytes_queue_up(
    relay: RelayModel,
    from: Side,
    first: Seq<u8>,
    second: Seq<u8>,
)
    ensures
        ({
            let after = relay.with_received(from, first);
            &&& after.buffer_to(from.peer()) == relay.buffer_to(from.peer()) + first
            &&& after.buffer_to(from) == relay.buffer_to(from)
            &&& after.closed(from) == relay.closed(from)
            &&& after.closed(from.peer()) == relay.closed(from.peer())
            &&& after.with_received(from, second) == relay.with_received(from, first + second)
        }),
{
    assert((relay.buffer_to(from.peer()) + first) + second =~= relay.buffer_to(from.peer()) + (first
        + second));
}

/// Bytes leave from the front, and nothing else changes. Bytes that leave in two
/// writes leave the same behind as if they had left in one.
pub proof fn law_sent_bytes_leave_in_order(relay: RelayModel, to: Side, first: int, second: int)
    requires
        0 <= first,
        0 <= second,
        first + second <= relay.buffer_to(to).len(),
    ensures
        ({
            let after = relay.with_sent(to, first);
            &&& relay.buffer_to(to).take(first) + after.buffer_to(to) == relay.buffer_to(to)
            &&& after.buffer_to(to).len() == relay.buffer_to(to).len() - first
            &&& after.buffer_to(to.peer()) == relay.buffer_to(to.peer())
            &&& after.closed(to) == relay.closed(to)
            &&& after.closed(to.peer()) == relay.closed(to.peer())
            &&& after.with_sent(to, second) == relay.with_sent(to, first + second)
        }),
{
    let waiting = relay.buffer_to(to);
    assert(waiting.take(first) + waiting.skip(first) =~= waiting);
    assert(waiting.skip(first).skip(second) =~= waiting.skip(first + second));
}

/// Other bytes can take the place of those that wait for a side, and nothing else
/// changes.
pub proof fn law_replaced_bytes_touch_one_side(relay: RelayModel, side: Side, bytes: Seq<u8>)
    ensures
        relay.with_buffer(side, bytes).buffer_to(side) == bytes,
        relay.with_buffer(side, bytes).buffer_to(side.peer()) == relay.buffer_to(side.peer()),
        relay.with_buffer(side, bytes).closed(side) == relay.closed(side),
        relay.with_buffer(side, bytes).closed(side.peer()) == relay.closed(side.peer()),
{
}

/// A connection is finished just when, for each side, nothing waits and no more
/// comes.
pub proof fn law_finished_means_nothing_to_do(relay: RelayModel)
    ensures
        relay.finished() <==> forall|side: Side|
            relay.closed(side) && #[trigger] relay.buffer_to(side).len() == 0,
{
    let client = Side::Client;
    let server = Side::Server;
    assert(relay.buffer_to(client) == relay.client_buffer);
    assert(relay.buffer_to(server) == relay.server_buffer);
}

/// Only a read brings bytes in, and it brings in those that were read.
pub proof fn law_bytes_come_in_by_reading(reply: ReplyModel, bytes: Seq<u8>)
    ensures
        reply == ReplyModel::Read(ReadModel::Received(bytes)) ==> bytes_in(reply) == bytes.len(),
        !(reply is Read && reply->Read_0 is Received) ==> bytes_in(reply) == 0,
{
}

} // verus!
