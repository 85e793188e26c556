//! `rustc_hash` maps and sets keyed by an integer.
//!
//! An `FxHashMap` is a `std::collections::HashMap` whose hasher is `FxBuildHasher`, a
//! fixed function of the key. Integer keys hash and compare by their value, so the map
//! behaves as a mathematical map from keys to values, and the set as a set of keys.
use vstd::prelude::*;
use rustc_hash::{FxHashMap, FxHashSet};

verus! {

/// The hasher of `rustc_hash`, opaque.
#[verifier::external_type_specification]
#[verifier::external_body]
pub struct ExFxBuildHasher(rustc_hash::FxBuildHasher);

/// `FxHashMap::default` makes an empty map.
#[verifier::external_body]
pub(crate) fn new_map<V>() -> (m: FxHashMap<u64, V>)
    ensures
        m@.dom() == Set::<u64>::empty(),
{
    FxHashMap::default()
}

/// `HashMap::get` returns the value under the key, if there is one.
#[verifier::external_body]
pub(crate) fn get<V>(m: &FxHashMap<u64, V>, key: u64) -> (r: Option<&V>)
    ensures
        r == (if m@.dom().contains(key) {
            Some(&m@[key])
        } else {
            None
        }),
{
    m.get(&key)
}

/// `HashMap::insert` puts the value under the key, in place of one that was there.
#[verifier::external_body]
pub(crate) fn insert<V>(m: &mut FxHashMap<u64, V>, key: u64, value: V)
    ensures
        final(m)@ == old(m)@.insert(key, value),
{
    m.insert(key, value);
}

/// `HashMap::remove` takes the key out of the map and returns the value that was under
/// it, if there was one.
#[verifier::external_body]
pub(crate) fn remove<V>(m: &mut FxHashMap<u64, V>, key: u64) -> (r: Option<V>)
    ensures
        final(m)@ == old(m)@.remove(key),
        r == (if old(m)@.dom().contains(key) {
            Some(old(m)@[key])
        } else {
            None
        }),
{
    m.remove(&key)
}

/// `FxHashSet::default` makes an empty set.
#[verifier::external_body]
pub(crate) fn new_set() -> (s: FxHashSet<u64>)
    ensures
        s@ == Set::<u64>::empty(),
{
    FxHashSet::default()
}

/// `HashSet::contains` says whether the key is in the set.
#[verifier::external_body]
pub(crate) fn contains(s: &FxHashSet<u64>, key: u64) -> (r: bool)
    ensures
        r == s@.contains(key),
{
    s.contains(&key)
}

/// `HashSet::insert` puts the key into the set and says whether it was not there.
#[verifier::external_body]
pub(crate) fn insert_key(s: &mut FxHashSet<u64>, key: u64) -> (r: bool)
    ensures
        final(s)@ == old(s)@.insert(key),
        r == !old(s)@.contains(key),
{
    s.insert(key)
}

/// `HashSet::len` is the number of keys.
#[verifier::external_body]
pub(crate) fn set_len(s: &FxHashSet<u64>) -> (r: usize)
    ensures
        r == s@.len(),
{
    s.len()
}

/// Whether a key is not below the bound.
pub(crate) fn at_least(key: u64, bound: u64) -> (r: bool)
    ensures
        r == (key >= bound),
{
    key >= bound
}

/// `HashSet::retain` keeps the keys for which the closure is true, here those that are not
/// below the bound.
#[verifier::external_body]
pub(crate) fn retain_from(s: &mut FxHashSet<u64>, bound: u64)
    ensures
        final(s)@ == old(s)@.filter(|key: u64| key >= bound),
{
    s.retain(|key| at_least(*key, bound));
}

} // verus!
