use vstd::prelude::*;
use crate::address::SocketAddress;
use crate::relay::{Relay, RelayModel};

verus! {

/// A session between one client and the backend server that serves it.
#[derive(Debug)]
pub struct ProxySession {
    pub relay: Relay,
    pub session_backend: SocketAddress,
    /// Nanoseconds on the monotonic clock at which bytes or an end of stream
    /// last passed through the session.
    pub last_activity: u64,
    pub prev: Option<usize>,
    pub next: Option<usize>,
}

/// What a [`ProxySession`] holds, its place among the other sessions aside.
#[verifier::ext_equal]
pub struct SessionModel {
    pub relay: RelayModel,
    pub session_backend: SocketAddress,
    pub last_activity: u64,
}

impl View for ProxySession {
    type V = SessionModel;

    open spec fn view(&self) -> SessionModel {
        SessionModel {
            relay: self.relay@,
            session_backend: self.session_backend,
            last_activity: self.last_activity,
        }
    }
}

} // verus!
