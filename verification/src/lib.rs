//! The decisions of a layer-4 load balancing proxy.
//!
//! A proxy accepts clients, connects each of them to a backend server, and
//! passes the bytes of either side on to the other. This library decides which
//! server a client is sent to, what is to be done with the sockets of a session
//! when one of them is ready, and when a session is closed. It performs no
//! input or output: whoever drives it does what it asks for and reports what
//! came of it.
//!
//! * [`phased`] is the proxy proper: it picks the server with the fewest
//!   sessions, handles each readiness event in phases and closes idle sessions.
//! * [`eager`] is a simpler proxy that picks the servers in turn and sends bytes
//!   on as soon as it has read them.
//! * [`relay`], [`session`], [`recency`] and [`session_slab`] hold the state of
//!   the sessions, [`servers`] that of the backend servers.
//! * [`tokens`] and [`registry`] say under which token and for what the sockets
//!   are registered.
//! * [`turns`] and [`eager_turns`] state what one step of a turn does,
//!   [`delivery`] and [`eager_delivery`] what a session delivers, [`bookkeeping`]
//!   and [`runs`] what the phased proxy keeps in order.

pub mod address;
pub mod bookkeeping;
pub mod delivery;
pub mod eager;
pub mod eager_delivery;
pub mod eager_turns;
pub mod phased;
pub mod recency;
pub mod registry;
pub mod relay;
pub mod runs;
pub mod servers;
pub mod session;
pub mod session_slab;
pub mod tokens;
pub mod turns;
