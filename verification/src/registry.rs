//! What a socket is registered for.

use vstd::prelude::*;

verus! {

/// The readiness a socket is watched for. It is never empty.
#[derive(Clone, Copy, Debug, PartialEq, Eq, Structural)]
pub enum Interest {
    Readable,
    Writable,
    ReadableWritable,
}

impl Interest {
    pub open spec fn readable(self) -> bool {
        self != Interest::Writable
    }

    pub open spec fn writable(self) -> bool {
        self != Interest::Readable
    }

    /// The readiness of both.
    pub fn add(self, other: Interest) -> (both: Interest)
        ensures
            both.readable() == (self.readable() || other.readable()),
            both.writable() == (self.writable() || other.writable()),
    {
        match (self, other) {
            (Interest::Readable, Interest::Readable) => Interest::Readable,
            (Interest::Writable, Interest::Writable) => Interest::Writable,
            _ => Interest::ReadableWritable,
        }
    }
}

/// What came of an attempt to change a registration.
#[derive(Clone, Copy, Debug, PartialEq, Eq, Structural)]
pub enum RegistryReply {
    Done,
    NotFound,
    Failed,
}

/// How far the registration of one socket has come.
#[derive(Clone, Copy, Debug, PartialEq, Eq, Structural)]
pub enum RegistryProgress {
    Start,
    Reregistered(RegistryReply),
}

/// What is to be done next about the registration of one socket.
#[derive(Clone, Copy, Debug, PartialEq, Eq, Structural)]
pub enum RegistryAction {
    Deregister,
    Reregister(Interest),
    Register(Interest),
    /// Nothing more is to be done.
    Settled,
    /// Nothing more can be done: the registration could not be changed.
    Abandoned,
}

/// The readiness that a socket is watched for to get what it needs.
pub fn interest_for(needs_read: bool, needs_write: bool) -> (interest: Interest)
    requires
        needs_read || needs_write,
    ensures
        interest.readable() == needs_read,
        interest.writable() == needs_write,
{
    if needs_read && needs_write {
        Interest::Readable.add(Interest::Writable)
    } else if needs_read {
        Interest::Readable
    } else {
        Interest::Writable
    }
}

/// What is to be done next to have a socket watched for what it needs.
pub open spec fn registry_action(
    needs_read: bool,
    needs_write: bool,
    progress: RegistryProgress,
) -> RegistryAction {
    let interest = if needs_read && needs_write {
        Interest::ReadableWritable
    } else if needs_read {
        Interest::Readable
    } else {
        Interest::Writable
    };
    match progress {
        RegistryProgress::Start => if needs_read || needs_write {
            RegistryAction::Reregister(interest)
        } else {
            RegistryAction::Deregister
        },
        RegistryProgress::Reregistered(RegistryReply::Done) => RegistryAction::Settled,
        RegistryProgress::Reregistered(RegistryReply::NotFound) => RegistryAction::Register(
            interest,
        ),
        RegistryProgress::Reregistered(RegistryReply::Failed) => RegistryAction::Abandoned,
    }
}

/// Changes the registration of a socket to what it still needs. A socket that
/// needs nothing is deregistered. One that turns out not to be registered is
/// registered anew.
pub fn safe_register(needs_read: bool, needs_write: bool, progress: RegistryProgress) -> (action:
    RegistryAction)
    requires
        progress is Reregistered ==> needs_read || needs_write,
    ensures
        progress == RegistryProgress::Start && !needs_read && !needs_write <==> action
            == RegistryAction::Deregister,
        progress == RegistryProgress::Start && (needs_read || needs_write) <==> action
            is Reregister,
        progress == RegistryProgress::Reregistered(RegistryReply::NotFound) <==> action
            is Register,
        progress == RegistryProgress::Reregistered(RegistryReply::Done) <==> action
            == RegistryAction::Settled,
        progress == RegistryProgress::Reregistered(RegistryReply::Failed) <==> action
            == RegistryAction::Abandoned,
        action matches RegistryAction::Reregister(interest) ==> interest.readable() == needs_read
            && interest.writable() == needs_write,
        action matches RegistryAction::Register(interest) ==> interest.readable() == needs_read
            && interest.writable() == needs_write,
        action == registry_action(needs_read, needs_write, progress),
{
    if let RegistryProgress::Reregistered(reply) = progress {
        match reply {
            RegistryReply::Done => {
                return RegistryAction::Settled;
            },
            RegistryReply::Failed => {
                return RegistryAction::Abandoned;
            },
            RegistryReply::NotFound => {},
        }
    } else if !needs_read && !needs_write {
        return RegistryAction::Deregister;
    }
    let interest = interest_for(needs_read, needs_write);
    if let RegistryProgress::Start = progress {
        RegistryAction::Reregister(interest)
    } else {
        RegistryAction::Register(interest)
    }
}

/// An interest is told by what it watches for, and watches for something.
pub proof fn law_interests_watch_for_what_they_say(interest: Interest, other: Interest)
    ensures
        Interest::Readable.readable() && !Interest::Readable.writable(),
        Interest::Writable.writable() && !Interest::Writable.readable(),
        Interest::ReadableWritable.readable() && Interest::ReadableWritable.writable(),
        interest.readable() || interest.writable(),
        interest.readable() == other.readable() && interest.writable() == other.writable()
            <==> interest == other,
{
}

/// A socket that needs nothing is deregistered, and any other is registered for
/// exactly what it needs: by changing its registration, and by making one where it
/// has none. That is all that is tried.
pub proof fn law_sockets_are_registered_for_their_needs(
    needs_read: bool,
    needs_write: bool,
    reply: RegistryReply,
)
    requires
        needs_read || needs_write,
    ensures
        registry_action(false, false, RegistryProgress::Start) == RegistryAction::Deregister,
        registry_action(needs_read, needs_write, RegistryProgress::Start) matches
            RegistryAction::Reregister(interest) && interest.readable() == needs_read
            && interest.writable() == needs_write,
        ({
            let then = registry_action(
                needs_read,
                needs_write,
                RegistryProgress::Reregistered(reply),
            );
            &&& reply == RegistryReply::NotFound ==> (then matches RegistryAction::Register(
                interest,
            ) && interest.readable() == needs_read && interest.writable() == needs_write)
            &&& reply == RegistryReply::Done <==> then == RegistryAction::Settled
            &&& reply == RegistryReply::Failed <==> then == RegistryAction::Abandoned
        }),
{
}

} // verus!
