//! The tokens under which sockets are registered for readiness events.

use vstd::prelude::*;
use crate::relay::Side;

verus! {

/// The token of the listening socket.
pub const LISTENER_TOKEN: usize = usize::MAX;

/// The token of the waker that announces a shutdown.
pub const WAKER_TOKEN: usize = usize::MAX - 1;

/// Whom a readiness event is for.
#[derive(Clone, Copy, Debug, PartialEq, Eq, Structural)]
pub enum Route {
    Listener,
    Waker,
    Session { key: usize, side: Side },
}

/// The token of one socket of a session: twice the key for the client, one more
/// for the server. The highest bit of the key is lost.
pub open spec fn session_token_spec(key: usize, side: Side) -> usize {
    match side {
        Side::Client => key << 1,
        Side::Server => (key << 1) | 1,
    }
}

/// The token of one socket of a session.
#[verifier::when_used_as_spec(session_token_spec)]
pub fn session_token(key: usize, side: Side) -> (token: usize)
    ensures
        token == session_token_spec(key, side),
        key <= usize::MAX / 2 ==> token == 2 * key + (if side == Side::Client {
            0int
        } else {
            1int
        }),
{
    assert(key << 1 == (2 * key) as usize) by (bit_vector);
    assert((key << 1) | 1 == (key << 1) + 1) by (bit_vector);
    match side {
        Side::Client => key << 1,
        Side::Server => (key << 1) | 1,
    }
}

/// Whom an event with this token is for.
pub open spec fn route_spec(token: usize) -> Route {
    if token == LISTENER_TOKEN {
        Route::Listener
    } else if token == WAKER_TOKEN {
        Route::Waker
    } else {
        Route::Session {
            key: (token / 2) as usize,
            side: if token % 2 == 0 {
                Side::Client
            } else {
                Side::Server
            },
        }
    }
}

/// Whom an event with this token is for.
#[verifier::when_used_as_spec(route_spec)]
pub fn route(token: usize) -> (target: Route)
    ensures
        target == route_spec(token),
{
    if token == LISTENER_TOKEN {
        Route::Listener
    } else if token == WAKER_TOKEN {
        Route::Waker
    } else {
        assert(token >> 1 == token / 2 && (token & 1 == 0 <==> token % 2 == 0)) by (bit_vector);
        let key: usize = token >> 1;
        let side = if token & 1 == 0 {
            Side::Client
        } else {
            Side::Server
        };
        Route::Session { key, side }
    }
}

/// An event on the socket of a session reaches that session, and is taken to
/// come from that side.
pub proof fn law_events_reach_their_session(key: usize, side: Side)
    requires
        key < usize::MAX / 2,
    ensures
        route(session_token(key, side)) == (Route::Session { key, side }),
{
    assert(key << 1 == (2 * key) as usize) by (bit_vector);
    assert((key << 1) | 1 == (key << 1) + 1) by (bit_vector);
}

/// No two sockets share a token, and none has that of the listener or the waker.
pub proof fn law_tokens_are_distinct(a: usize, side_a: Side, b: usize, side_b: Side)
    requires
        a < usize::MAX / 2,
        b < usize::MAX / 2,
    ensures
        session_token(a, side_a) == session_token(b, side_b) <==> (a == b && side_a == side_b),
        session_token(a, side_a) != LISTENER_TOKEN,
        session_token(a, side_a) != WAKER_TOKEN,
        LISTENER_TOKEN != WAKER_TOKEN,
{
    law_events_reach_their_session(a, side_a);
    law_events_reach_their_session(b, side_b);
}

/// The listener and the waker are reached by their tokens alone, and any other
/// token leads to the session socket that it belongs to.
pub proof fn law_tokens_lead_where_they_belong(token: usize)
    ensures
        route(token) == Route::Listener <==> token == LISTENER_TOKEN,
        route(token) == Route::Waker <==> token == WAKER_TOKEN,
        route(token) matches Route::Session { key, side } ==> session_token(key, side) == token,
{
    let key = (token / 2) as usize;
    assert(key << 1 == (2 * key) as usize) by (bit_vector);
    assert((key << 1) | 1 == (key << 1) + 1) by (bit_vector);
}

} // verus!
