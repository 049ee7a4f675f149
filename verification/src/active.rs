//! The set of active tasks: for every spawned task that has not finished,
//! its waker, kept in a `slab::Slab` under the task's index.

use slab::Slab;
use std::task::Waker;
use vstd::prelude::*;

verus! {

/// `slab::Slab`, which stores values under small keys and uses the keys of
/// removed values again.
#[verifier::external_type_specification]
#[verifier::external_body]
#[verifier::reject_recursive_types(T)]
pub struct ExSlab<T>(Slab<T>);

/// The wakers that a slab holds, by key.
pub uninterp spec fn active_entries(active: Slab<Waker>) -> Map<usize, Waker>;

/// The key under which a slab stores the next value inserted.
pub uninterp spec fn active_vacant(active: Slab<Waker>) -> usize;

/// A slab that holds nothing.
pub open spec fn no_entries() -> Map<usize, Waker> {
    Map::empty()
}

/// True if `listing` holds the values of `entries`, each once, in the order
/// of their keys.
pub open spec fn lists_by_key(listing: Seq<Waker>, entries: Map<usize, Waker>) -> bool {
    exists|keys: Seq<usize>|
        {
            &&& keys.len() == listing.len()
            &&& forall|i: int, j: int| 0 <= i < j < keys.len() ==> keys[i] < keys[j]
            &&& forall|i: int|
                0 <= i < keys.len() ==> entries.contains_key(#[trigger] keys[i]) && entries[keys[i]]
                    == listing[i]
            &&& forall|key: usize| entries.contains_key(key) ==> keys.contains(key)
        }
}

/// Calls `Slab::new`: the new slab is empty, and its first key is 0.
#[verifier::external_body]
pub(crate) fn active_new() -> (active: Slab<Waker>)
    ensures
        active_entries(active) == no_entries(),
        active_vacant(active) == 0,
{
    Slab::new()
}

/// Calls `Slab::is_empty`, which tells whether the slab holds no value.
#[verifier::external_body]
pub(crate) fn active_is_empty(active: &Slab<Waker>) -> (empty: bool)
    ensures
        empty == (active_entries(*active) == no_entries()),
{
    active.is_empty()
}

/// Calls `Slab::vacant_key`: the key that the next `insert` will use. No
/// value is stored under it.
#[verifier::external_body]
pub(crate) fn active_vacant_key(active: &Slab<Waker>) -> (key: usize)
    ensures
        key == active_vacant(*active),
        !active_entries(*active).contains_key(key),
{
    active.vacant_key()
}

/// Calls `Slab::insert`: the value is stored under the slab's vacant key,
/// which is returned; the other entries stay. (It panics only if the slab's
/// storage cannot grow.)
#[verifier::external_body]
pub(crate) fn active_insert(active: &mut Slab<Waker>, waker: Waker) -> (key: usize)
    ensures
        key == active_vacant(*old(active)),
        !active_entries(*old(active)).contains_key(key),
        active_entries(*final(active)) == active_entries(*old(active)).insert(key, waker),
{
    active.insert(waker)
}

/// Calls `Slab::contains`, which tells whether a value is stored under `key`.
#[verifier::external_body]
pub(crate) fn active_contains(active: &Slab<Waker>, key: usize) -> (found: bool)
    ensures
        found == active_entries(*active).contains_key(key),
{
    active.contains(key)
}

/// Calls `Slab::remove`, which panics if nothing is stored under `key`.
/// Otherwise it returns the value stored there, the other entries stay, and
/// `key` is the slab's vacant key afterwards.
#[verifier::external_body]
pub(crate) fn active_remove(active: &mut Slab<Waker>, key: usize) -> (waker: Waker)
    requires
        active_entries(*old(active)).contains_key(key),
    ensures
        waker == active_entries(*old(active))[key],
        active_entries(*final(active)) == active_entries(*old(active)).remove(key),
        active_vacant(*final(active)) == key,
{
    active.remove(key)
}

/// Calls `Slab::drain` and collects what it yields: every value of the slab,
/// in the order of the keys. The slab is empty afterwards and starts again at
/// key 0.
#[verifier::external_body]
pub(crate) fn active_drain(active: &mut Slab<Waker>) -> (wakers: Vec<Waker>)
    ensures
        lists_by_key(wakers@, active_entries(*old(active))),
        active_entries(*final(active)) == no_entries(),
        active_vacant(*final(active)) == 0,
{
    active.drain().collect()
}

} // verus!
