//! Trusted bindings for the FNV-hashed maps and sets of the `fnv` crate.
//!
//! `fnv::FnvHashMap` and `fnv::FnvHashSet` are std's hash containers with another hasher, so
//! their contents are the `Map` and `Set` views that vstd gives to `HashMap` and `HashSet`.
//! The keys are plain integers, arrays of bytes or pairs of integers, whose `Eq` and `Hash`
//! std documents to agree with equality of values.
use fnv::{FnvHashMap, FnvHashSet, FnvHasher};
use vstd::prelude::*;

verus! {

/// The hasher of the `fnv` crate. It is carried inside the containers and never looked into.
#[verifier::external_type_specification]
#[verifier::external_body]
pub struct ExFnvHasher(FnvHasher);

/// std's builder of default hashers, the third parameter of an FNV map's type.
#[verifier::external_type_specification]
#[verifier::external_body]
#[verifier::reject_recursive_types(H)]
pub struct ExBuildHasherDefault<H>(std::hash::BuildHasherDefault<H>);

/// The key types of this crate's maps: values of std whose equality is equality of contents.
pub trait MapKey: Eq + std::hash::Hash {

}

impl MapKey for u64 {

}

impl MapKey for usize {

}

impl MapKey for [u8; 32] {

}

impl MapKey for (usize, u64) {

}

/// `HashMap::get`: the value stored under the key, if there is one.
#[verifier::external_body]
pub(crate) fn map_get<'a, K: MapKey, V>(m: &'a FnvHashMap<K, V>, k: &K) -> (r: Option<&'a V>)
    ensures
        r == (if m@.contains_key(*k) {
            Some(&m@[*k])
        } else {
            None
        }),
{
    m.get(k)
}

/// `HashMap::contains_key`: whether the key has a value.
#[verifier::external_body]
pub(crate) fn map_contains<K: MapKey, V>(m: &FnvHashMap<K, V>, k: &K) -> (r: bool)
    ensures
        r == m@.contains_key(*k),
{
    m.contains_key(k)
}

/// `HashMap::insert`: the key now has this value; what it had before is returned.
#[verifier::external_body]
pub(crate) fn map_insert<K: MapKey, V>(m: &mut FnvHashMap<K, V>, k: K, v: V) -> (r: Option<V>)
    ensures
        final(m)@ == old(m)@.insert(k, v),
        r == (if old(m)@.contains_key(k) {
            Some(old(m)@[k])
        } else {
            None
        }),
{
    m.insert(k, v)
}

/// `HashMap::remove`: the key has no value any more; what it had before is returned.
#[verifier::external_body]
pub(crate) fn map_remove<K: MapKey, V>(m: &mut FnvHashMap<K, V>, k: &K) -> (r: Option<V>)
    ensures
        final(m)@ == old(m)@.remove(*k),
        r == (if old(m)@.contains_key(*k) {
            Some(old(m)@[*k])
        } else {
            None
        }),
{
    m.remove(k)
}

/// `HashMap::len`: the number of keys.
#[verifier::external_body]
pub(crate) fn map_len<K: MapKey, V>(m: &FnvHashMap<K, V>) -> (r: usize)
    ensures
        r == m@.dom().len(),
{
    m.len()
}

/// `HashMap::keys`, copied out: every key once, in an order that is left open.
#[verifier::external_body]
pub(crate) fn map_keys<K: MapKey + Copy, V>(m: &FnvHashMap<K, V>) -> (r: Vec<K>)
    ensures
        r@.no_duplicates(),
        r@.to_set() == m@.dom(),
{
    m.keys().copied().collect()
}

/// `HashSet::contains`: whether the value is a member.
#[verifier::external_body]
pub(crate) fn set_contains<K: MapKey>(s: &FnvHashSet<K>, k: &K) -> (r: bool)
    ensures
        r == s@.contains(*k),
{
    s.contains(k)
}

/// `HashSet::insert`: the value is a member now; the result tells whether it is a new one.
#[verifier::external_body]
pub(crate) fn set_insert<K: MapKey>(s: &mut FnvHashSet<K>, k: K) -> (r: bool)
    ensures
        final(s)@ == old(s)@.insert(k),
        r == !old(s)@.contains(k),
{
    s.insert(k)
}

/// `HashSet::remove`: the value is no member any more; the result tells whether it was one.
#[verifier::external_body]
pub(crate) fn set_remove<K: MapKey>(s: &mut FnvHashSet<K>, k: &K) -> (r: bool)
    ensures
        final(s)@ == old(s)@.remove(*k),
        r == old(s)@.contains(*k),
{
    s.remove(k)
}

/// `HashSet::clone`: a set with the same members.
#[verifier::external_body]
pub(crate) fn set_copy<K: MapKey + Copy>(s: &FnvHashSet<K>) -> (r: FnvHashSet<K>)
    ensures
        r@ == s@,
{
    s.clone()
}

/// `HashSet::len`: the number of members.
#[verifier::external_body]
pub(crate) fn set_len<K: MapKey>(s: &FnvHashSet<K>) -> (r: usize)
    ensures
        r == s@.len(),
{
    s.len()
}

/// `HashSet::iter`, copied out: every member once, in an order that is left open.
#[verifier::external_body]
pub(crate) fn set_items<K: MapKey + Copy>(s: &FnvHashSet<K>) -> (r: Vec<K>)
    ensures
        r@.no_duplicates(),
        r@.to_set() == s@,
{
    s.iter().copied().collect()
}

/// Keeps the entries of rounds from `min` on.
pub(crate) fn retain_from<V>(m: &mut FnvHashMap<u64, V>, min: u64)
    ensures
        final(m)@ == old(m)@.restrict(Set::new(|r: u64| r >= min)),
{
    let ghost start = m@;
    let keys = map_keys(m);
    let mut i: usize = 0;
    while i < keys.len()
        invariant
            i <= keys@.len(),
            keys@.no_duplicates(),
            keys@.to_set() == start.dom(),
            start == old(m)@,
            m@.submap_of(start),
            forall|j: int| 0 <= j < keys@.len() ==> (m@.contains_key(#[trigger] keys@[j]) <==> j >= i || keys@[j] >= min),
        decreases keys@.len() - i,
    {
        let k: u64 = keys[i];
        if k < min {
            map_remove(m, &k);
        }
        i += 1;
    }
    proof {
        let kept = start.restrict(Set::new(|r: u64| r >= min));
        assert forall|r: u64| m@.contains_key(r) <==> #[trigger] kept.contains_key(r) by {
            if start.contains_key(r) {
                assert(keys@.to_set().contains(r));
                let j = choose|j: int| 0 <= j < keys@.len() && keys@[j] == r;
                assert(keys@[j] == r);
            }
        }
        assert(m@ =~= kept);
    }
}

} // verus!
