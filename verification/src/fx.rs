//! The hash collections that back the grid: maps and sets of
//! `rustc_hash`, keyed by a pair of integers. Nothing in this file is
//! proved; each contract states what the collection does, as its source
//! shows it.

use vstd::prelude::*;
use rustc_hash::{FxHashMap, FxHashSet};

verus! {

/// `core::hash::BuildHasherDefault`, which builds the hasher of an Fx
/// collection by `Default`. Declared so that the collection types can be
/// named; nothing is known of a value.
#[verifier::external_type_specification]
#[verifier::external_body]
#[verifier::reject_recursive_types(H)]
pub struct ExBuildHasherDefault<H>(core::hash::BuildHasherDefault<H>);

/// `rustc_hash::FxHasher`. Declared so that the collection types can be
/// named; nothing is known of a value.
#[verifier::external_type_specification]
#[verifier::external_body]
pub struct ExFxHasher(rustc_hash::FxHasher);

/// A key of the grid's collections: the two parts of a chunk index.
pub type Key = (isize, isize);

/// `HashMap::contains_key` on an Fx map: whether `k` is a key of the map.
#[verifier::external_body]
pub(crate) fn map_contains<V>(m: &FxHashMap<Key, V>, k: Key) -> (r: bool)
    ensures
        r == m@.contains_key(k),
{
    m.contains_key(&k)
}

/// `HashMap::get` on an Fx map: the value stored under `k`, if `k` is a
/// key of the map.
#[verifier::external_body]
pub(crate) fn map_get<'a, V>(m: &'a FxHashMap<Key, V>, k: Key) -> (r: Option<&'a V>)
    ensures
        r == (if m@.contains_key(k) {
            Some(&m@[k])
        } else {
            None
        }),
{
    m.get(&k)
}

/// `HashMap::get_mut` on an Fx map: access to the value stored under `k`,
/// if `k` is a key of the map. What the caller leaves in that place is
/// what the map holds under `k` afterwards; no other entry changes.
#[verifier::external_body]
pub(crate) fn map_get_mut<'a, V>(m: &'a mut FxHashMap<Key, V>, k: Key) -> (r: Option<&'a mut V>)
    ensures
        old(m)@.contains_key(k) ==> r is Some && *r->Some_0 == old(m)@[k] && final(m)@ == old(
            m,
        )@.insert(k, *final(r->Some_0)),
        !old(m)@.contains_key(k) ==> r is None && final(m)@ == old(m)@,
{
    m.get_mut(&k)
}

/// `HashMap::insert` on an Fx map: afterwards `k` maps to `v` and every
/// other key to what it mapped to before; returns what `k` mapped to
/// before, if anything.
#[verifier::external_body]
pub(crate) fn map_insert<V>(m: &mut FxHashMap<Key, V>, k: Key, v: V) -> (r: Option<V>)
    ensures
        final(m)@ == old(m)@.insert(k, v),
        r == (if old(m)@.contains_key(k) {
            Some(old(m)@[k])
        } else {
            None
        }),
{
    m.insert(k, v)
}

/// `HashMap::keys` on an Fx map, gathered into a vector: every key of the
/// map once, in an order that is not fixed.
#[verifier::external_body]
pub(crate) fn map_keys<V>(m: &FxHashMap<Key, V>) -> (r: Vec<Key>)
    ensures
        r@.no_duplicates(),
        forall|k: Key| r@.contains(k) <==> m@.contains_key(k),
{
    m.keys().copied().collect()
}

/// `HashSet::contains` on an Fx set: whether `k` is in the set.
#[verifier::external_body]
pub(crate) fn set_contains(s: &FxHashSet<Key>, k: Key) -> (r: bool)
    ensures
        r == s@.contains(k),
{
    s.contains(&k)
}

/// `HashSet::insert` on an Fx set: afterwards the set holds `k` besides
/// what it held; returns whether `k` was new to it.
#[verifier::external_body]
pub(crate) fn set_insert(s: &mut FxHashSet<Key>, k: Key) -> (r: bool)
    ensures
        final(s)@ == old(s)@.insert(k),
        r == !old(s)@.contains(k),
{
    s.insert(k)
}

} // verus!
