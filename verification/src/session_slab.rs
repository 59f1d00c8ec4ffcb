//! The slab that stores the sessions.

use vstd::prelude::*;
use slab::Slab;
use crate::session::ProxySession;

verus! {

/// The slab of the `slab` crate, which hands out the key under which it stores
/// a value.
#[verifier::external_type_specification]
#[verifier::external_body]
#[verifier::reject_recursive_types(T)]
pub struct ExSlab<T>(slab::Slab<T>);

/// The sessions that a slab holds, by key.
pub uninterp spec fn slab_entries(slab: Slab<ProxySession>) -> Map<usize, ProxySession>;

/// `slab::Slab::new`: a slab that holds nothing.
#[verifier::external_body]
pub(crate) fn slab_new() -> (made: Slab<ProxySession>)
    ensures
        slab_entries(made).dom() == Set::<usize>::empty(),
{
    Slab::new()
}

/// A slab is given no session beyond this many. A slot takes up at most 256
/// bytes, so that the slots of this many sessions fill at most a quarter of the
/// `isize::MAX` bytes that a vector can hold.
pub const MAX_SESSIONS: usize = usize::MAX / 2048;

/// `slab::Slab::insert`: stores the session under a key that held nothing and
/// returns that key. The keys are indices into one vector of slots, each slot
/// holds a session and so takes up memory, and the storage of the vector never
/// exceeds `isize::MAX` bytes: the call panics where it would. The vector grows
/// only when every slot is taken, so that this does not happen below
/// `MAX_SESSIONS` sessions. Which of the free keys is taken is left open.
#[verifier::external_body]
pub(crate) fn slab_insert(slab: &mut Slab<ProxySession>, session: ProxySession) -> (key: usize)
    requires
        slab_entries(*old(slab)).dom().finite(),
        slab_entries(*old(slab)).dom().len() < MAX_SESSIONS,
    ensures
        !slab_entries(*old(slab)).contains_key(key),
        key < isize::MAX,
        slab_entries(*final(slab)) == slab_entries(*old(slab)).insert(key, session),
{
    slab.insert(session)
}

/// `slab::Slab::contains`: whether a session is stored under the key.
#[verifier::external_body]
pub(crate) fn slab_contains(slab: &Slab<ProxySession>, key: usize) -> (held: bool)
    ensures
        held == slab_entries(*slab).contains_key(key),
{
    slab.contains(key)
}

/// `slab::Slab::index`: the session stored under the key. The call panics on
/// a key that holds nothing.
#[verifier::external_body]
pub(crate) fn slab_index(slab: &Slab<ProxySession>, key: usize) -> (session: &ProxySession)
    requires
        slab_entries(*slab).contains_key(key),
    ensures
        *session == slab_entries(*slab)[key],
{
    &slab[key]
}

/// `slab::Slab::index_mut`: the session stored under the key, to be changed in
/// place; no other session changes. The call panics on a key that holds nothing.
#[verifier::external_body]
pub(crate) fn slab_index_mut(slab: &mut Slab<ProxySession>, key: usize) -> (session:
    &mut ProxySession)
    requires
        slab_entries(*old(slab)).contains_key(key),
    ensures
        *session == slab_entries(*old(slab))[key],
        slab_entries(*final(slab)) == slab_entries(*old(slab)).insert(key, *final(session)),
{
    &mut slab[key]
}

/// `slab::Slab::remove`: takes the session out and frees its key. The call
/// panics on a key that holds nothing.
#[verifier::external_body]
pub(crate) fn slab_remove(slab: &mut Slab<ProxySession>, key: usize) -> (session: ProxySession)
    requires
        slab_entries(*old(slab)).contains_key(key),
    ensures
        session == slab_entries(*old(slab))[key],
        slab_entries(*final(slab)) == slab_entries(*old(slab)).remove(key),
{
    slab.remove(key)
}

/// `slab::Slab::is_empty`: whether the slab holds nothing.
#[verifier::external_body]
pub(crate) fn slab_is_empty(slab: &Slab<ProxySession>) -> (empty: bool)
    ensures
        empty == (slab_entries(*slab).dom() == Set::<usize>::empty()),
{
    slab.is_empty()
}

} // verus!
