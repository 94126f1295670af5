//! Trusted bindings for the `linked-hash-map` crate.
//!
//! A `LinkedHashMap` keeps its entries in insertion order. Two of its instances are used here:
//! queues of chain links by digest, where the order matters, and counters by proposer.
use crate::digest::Digest;
use linked_hash_map::LinkedHashMap;
use vstd::prelude::*;

verus! {

/// A chain element, as far as walking and committing a chain reads it.
#[derive(Clone, Copy)]
pub struct Link {
    /// The node that signed it.
    pub author: usize,
    pub round: u64,
    /// The digest of its parent.
    pub parent: Digest,
}

/// The map type of the `linked-hash-map` crate.
#[verifier::external_type_specification]
#[verifier::external_body]
#[verifier::reject_recursive_types(K)]
#[verifier::reject_recursive_types(V)]
#[verifier::reject_recursive_types(S)]
pub struct ExLinkedHashMap<K, V, S>(LinkedHashMap<K, V, S>);

/// The entries of a queue of links, from the one inserted first to the one inserted last.
pub uninterp spec fn link_items(q: LinkedHashMap<Digest, Link>) -> Seq<(Digest, Link)>;

/// The counters of a map of counters.
pub uninterp spec fn count_items(c: LinkedHashMap<usize, usize>) -> Map<usize, usize>;

/// The entries whose key is another one.
pub open spec fn without(s: Seq<(Digest, Link)>, k: Digest) -> Seq<(Digest, Link)>
    decreases s.len(),
{
    if s.len() == 0 {
        s
    } else if s.last().0 == k {
        without(s.drop_last(), k)
    } else {
        without(s.drop_last(), k).push(s.last())
    }
}

/// The entries after an insertion: the key's entry, old or new, is the last one.
pub open spec fn put(s: Seq<(Digest, Link)>, k: Digest, v: Link) -> Seq<(Digest, Link)> {
    without(s, k).push((k, v))
}

/// Whether some entry has the key.
pub open spec fn has_key(s: Seq<(Digest, Link)>, k: Digest) -> bool {
    exists|i: int| 0 <= i < s.len() && (#[trigger] s[i]).0 == k
}

/// The link stored under a key.
pub open spec fn find(s: Seq<(Digest, Link)>, k: Digest) -> Option<Link> {
    if has_key(s, k) {
        Some(s[choose|i: int| 0 <= i < s.len() && (#[trigger] s[i]).0 == k].1)
    } else {
        None
    }
}

/// `LinkedHashMap::new`: a queue without entries.
#[verifier::external_body]
pub(crate) fn links_new() -> (r: LinkedHashMap<Digest, Link>)
    ensures
        link_items(r) == Seq::<(Digest, Link)>::empty(),
{
    LinkedHashMap::new()
}

/// `LinkedHashMap::insert` on a queue: a new entry goes to the end; an entry that the key has
/// already takes the new value and moves to the end.
#[verifier::external_body]
pub(crate) fn links_insert(q: &mut LinkedHashMap<Digest, Link>, k: Digest, v: Link)
    ensures
        link_items(*final(q)) == put(link_items(*old(q)), k, v),
{
    q.insert(k, v);
}

/// `LinkedHashMap::get` on a queue, copied out: the link under the key.
#[verifier::external_body]
pub(crate) fn links_get(q: &LinkedHashMap<Digest, Link>, k: &Digest) -> (r: Option<Link>)
    ensures
        r == find(link_items(*q), *k),
{
    q.get(k).copied()
}

/// `LinkedHashMap::back` on a queue, copied out: the last entry.
#[verifier::external_body]
pub(crate) fn links_back(q: &LinkedHashMap<Digest, Link>) -> (r: Option<(Digest, Link)>)
    ensures
        r == (if link_items(*q).len() == 0 {
            None
        } else {
            Some(link_items(*q).last())
        }),
{
    q.back().map(|e| (*e.0, *e.1))
}

/// `LinkedHashMap::pop_front` on a queue: the first entry leaves.
#[verifier::external_body]
pub(crate) fn links_pop_front(q: &mut LinkedHashMap<Digest, Link>) -> (r: Option<(Digest, Link)>)
    ensures
        r == (if link_items(*old(q)).len() == 0 {
            None
        } else {
            Some(link_items(*old(q)).first())
        }),
        link_items(*final(q)) == (if link_items(*old(q)).len() == 0 {
            link_items(*old(q))
        } else {
            link_items(*old(q)).drop_first()
        }),
{
    q.pop_front()
}

/// `LinkedHashMap::iter` on a queue, copied out: the entries in their order.
#[verifier::external_body]
pub(crate) fn links_entries(q: &LinkedHashMap<Digest, Link>) -> (r: Vec<(Digest, Link)>)
    ensures
        r@ == link_items(*q),
{
    q.iter().map(|e| (*e.0, *e.1)).collect()
}

/// `LinkedHashMap::default`: a map without counters.
#[verifier::external_body]
pub(crate) fn counts_new() -> (r: LinkedHashMap<usize, usize>)
    ensures
        count_items(r).dom() == Set::<usize>::empty(),
{
    LinkedHashMap::default()
}

/// `LinkedHashMap::get` on counters, copied out: the counter under the key.
#[verifier::external_body]
pub(crate) fn counts_get(c: &LinkedHashMap<usize, usize>, k: usize) -> (r: Option<usize>)
    ensures
        r == (if count_items(*c).contains_key(k) {
            Some(count_items(*c)[k])
        } else {
            None
        }),
{
    c.get(&k).copied()
}

/// `LinkedHashMap::insert` on counters: the key's counter has this value now.
#[verifier::external_body]
pub(crate) fn counts_insert(c: &mut LinkedHashMap<usize, usize>, k: usize, v: usize)
    ensures
        count_items(*final(c)) == count_items(*old(c)).insert(k, v),
{
    c.insert(k, v);
}

/// `LinkedHashMap::remove` on counters: the key has no counter any more.
#[verifier::external_body]
pub(crate) fn counts_remove(c: &mut LinkedHashMap<usize, usize>, k: usize)
    ensures
        count_items(*final(c)) == count_items(*old(c)).remove(k),
{
    c.remove(&k);
}

/// `LinkedHashMap::len` on counters: how many keys have one.
#[verifier::external_body]
pub(crate) fn counts_len(c: &LinkedHashMap<usize, usize>) -> (r: usize)
    ensures
        r == count_items(*c).dom().len(),
{
    c.len()
}

/// `LinkedHashMap::keys` on counters, copied out: every key once.
#[verifier::external_body]
pub(crate) fn counts_keys(c: &LinkedHashMap<usize, usize>) -> (r: Vec<usize>)
    ensures
        r@.no_duplicates(),
        r@.to_set() == count_items(*c).dom(),
{
    c.keys().copied().collect()
}

/// The entries without a key keep their order, and are those of all other keys.
pub proof fn law_entries_without_a_key(s: Seq<(Digest, Link)>, e: (Digest, Link), k: Digest)
    ensures
        without(Seq::<(Digest, Link)>::empty(), k).len() == 0,
        e.0 == k ==> without(s.push(e), k) == without(s, k),
        e.0 != k ==> without(s.push(e), k) == without(s, k).push(e),
        has_key(s, k) <==> find(s, k) is Some,
        find(s, k) matches Some(v) ==> s.contains((k, v)),
{
    assert(s.push(e).drop_last() =~= s);
    if has_key(s, k) {
        assert(exists|i: int| 0 <= i < s.len() && #[trigger] s[i] == (k, find(s, k)->0));
    }
}

} // verus!
