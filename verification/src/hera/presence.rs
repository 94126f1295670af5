//! Which data blocks are here, and who waits for those that are not.
use crate::digest::Digest;
use crate::fnv_map::{map_contains, map_get, map_insert, map_keys, map_remove};
use crate::hera::types::DataBlockHash;
use fnv::FnvHashMap;
use vstd::prelude::*;

verus! {

/// What there is to know of the index.
#[verifier::ext_equal]
pub struct PresenceState {
    /// The author and height of each block that is here.
    pub present: Map<DataBlockHash, (usize, u64)>,
    /// The tickets of those that wait for a block.
    pub waiters: Map<DataBlockHash, Seq<u64>>,
}

impl PresenceState {
    /// Nobody waits for a block that is here.
    pub open spec fn inv(self) -> bool {
        forall|h: DataBlockHash| #[trigger] self.present.contains_key(h) ==> !self.waiters.contains_key(h)
    }

    /// Those that wait for a block.
    pub open spec fn waiting(self, hash: DataBlockHash) -> Seq<u64> {
        if self.waiters.contains_key(hash) {
            self.waiters[hash]
        } else {
            Seq::empty()
        }
    }

    /// The block is here, and nobody waits for it any more.
    pub open spec fn arrived(self, hash: DataBlockHash, author: usize, height: u64) -> Self {
        PresenceState {
            present: self.present.insert(hash, (author, height)),
            waiters: self.waiters.remove(hash),
        }
    }

    /// A ticket asks for the block: it waits, unless the block is here.
    pub open spec fn waited(self, hash: DataBlockHash, ticket: u64) -> Self {
        if self.present.contains_key(hash) {
            self
        } else {
            PresenceState {
                waiters: self.waiters.insert(hash, self.waiting(hash).push(ticket)),
                ..self
            }
        }
    }

    /// Whether the block is decided: by this author, at or below this height.
    pub open spec fn settled(self, hash: DataBlockHash, author: usize, height: u64) -> bool {
        self.present.contains_key(hash) && self.present[hash].0 == author && self.present[hash].1 <= height
    }
}

/// The index of present blocks. A waiter is known by a ticket of its own choice.
pub struct BlockPresence {
    present: FnvHashMap<DataBlockHash, (usize, u64)>,
    waiters: FnvHashMap<DataBlockHash, Vec<u64>>,
}

impl BlockPresence {
    pub closed spec fn view(&self) -> PresenceState {
        PresenceState {
            present: self.present@,
            waiters: self.waiters@.map_values(|v: Vec<u64>| v@),
        }
    }

    pub fn new() -> (r: Self)
        ensures
            r@.inv(),
            r@.present == Map::<DataBlockHash, (usize, u64)>::empty(),
            r@.waiters == Map::<DataBlockHash, Seq<u64>>::empty(),
    {
        let r = BlockPresence { present: FnvHashMap::default(), waiters: FnvHashMap::default() };
        assert(r@.waiters =~= Map::<DataBlockHash, Seq<u64>>::empty());
        r
    }

    /// Whether the block is here.
    pub fn is_present(&self, hash: &DataBlockHash) -> (r: bool)
        ensures
            r == self@.present.contains_key(*hash),
    {
        map_contains(&self.present, hash)
    }

    /// The block is here. Returns the tickets that waited for it.
    pub fn insert(&mut self, hash: DataBlockHash, author: usize, height: u64) -> (r: Vec<u64>)
        requires
            old(self)@.inv(),
        ensures
            final(self)@.inv(),
            r@ == old(self)@.waiting(hash),
            final(self)@ == old(self)@.arrived(hash, author, height),
    {
        map_insert(&mut self.present, hash, (author, height));
        let woken: Vec<u64> = match map_remove(&mut self.waiters, &hash) {
            Some(v) => v,
            None => Vec::new(),
        };
        assert(self@.waiters =~= old(self)@.waiters.remove(hash));
        assert(woken@ =~= old(self)@.waiting(hash));
        assert forall|h: DataBlockHash| #[trigger] self@.present.contains_key(h) implies !self@.waiters.contains_key(h) by {
            assert(h == hash || old(self)@.present.contains_key(h));
        }
        woken
    }

    /// Asks for a block. `true` if it is here; otherwise the ticket waits for it.
    pub fn wait(&mut self, hash: DataBlockHash, ticket: u64) -> (r: bool)
        requires
            old(self)@.inv(),
        ensures
            final(self)@.inv(),
            r == old(self)@.present.contains_key(hash),
            final(self)@ == old(self)@.waited(hash, ticket),
    {
        if map_contains(&self.present, &hash) {
            return true;
        }
        let mut line: Vec<u64> = match map_remove(&mut self.waiters, &hash) {
            Some(v) => v,
            None => Vec::new(),
        };
        assert(line@ =~= old(self)@.waiting(hash));
        line.push(ticket);
        map_insert(&mut self.waiters, hash, line);
        assert(self@.waiters =~= old(self)@.waiters.insert(hash, old(self)@.waiting(hash).push(ticket)));
        assert forall|h: DataBlockHash| #[trigger] self@.present.contains_key(h) implies !self@.waiters.contains_key(h) by {
            assert(old(self)@.present.contains_key(h));
        }
        false
    }

    /// The author's chain is decided up to this height: those of its blocks leave the index.
    pub fn gc(&mut self, author: usize, committed_height: u64)
        requires
            old(self)@.inv(),
        ensures
            final(self)@.inv(),
            final(self)@ == (PresenceState {
                present: old(self)@.present.restrict(
                    Set::new(|h: DataBlockHash| !old(self)@.settled(h, author, committed_height)),
                ),
                ..old(self)@
            }),
    {
        let ghost start = self@;
        let keys = map_keys(&self.present);
        let mut i: usize = 0;
        while i < keys.len()
            invariant
                i <= keys@.len(),
                keys@.no_duplicates(),
                keys@.to_set() == start.present.dom(),
                start.inv(),
                self@.waiters == start.waiters,
                self@.present.submap_of(start.present),
                forall|j: int| 0 <= j < keys@.len() ==> (self@.present.contains_key(#[trigger] keys@[j]) <==> j >= i
                    || !start.settled(keys@[j], author, committed_height)),
            decreases keys@.len() - i,
        {
            let k: Digest = keys[i];
            assert(keys@.to_set().contains(k));
            if let Some(e) = map_get(&self.present, &k) {
                if e.0 == author && e.1 <= committed_height {
                    let ghost before = self@;
                    map_remove(&mut self.present, &k);
                    map_remove(&mut self.waiters, &k);
                    assert(self@.waiters =~= before.waiters);
                }
            }
            i += 1;
        }
        proof {
            let kept = start.present.restrict(
                Set::new(|h: DataBlockHash| !start.settled(h, author, committed_height)),
            );
            assert forall|h: DataBlockHash| self@.present.contains_key(h) <==> #[trigger] kept.contains_key(h) by {
                if start.present.contains_key(h) {
                    assert(keys@.to_set().contains(h));
                    let j = choose|j: int| 0 <= j < keys@.len() && keys@[j] == h;
                    assert(keys@[j] == h);
                }
            }
            assert(self@.present =~= kept);
        }
    }
}

/// Whoever waits for a block is woken by its arrival, and nobody waits for it afterwards.
pub proof fn law_arrival_wakes_waiter(s: PresenceState, hash: DataBlockHash, ticket: u64, author: usize, height: u64)
    requires
        !s.present.contains_key(hash),
    ensures
        s.waited(hash, ticket).waiting(hash).contains(ticket),
        s.waited(hash, ticket).arrived(hash, author, height).waiting(hash).len() == 0,
        s.waited(hash, ticket).arrived(hash, author, height).present.contains_key(hash),
{
    assert(s.waited(hash, ticket).waiting(hash)[s.waiting(hash).len() as int] == ticket);
}

/// A block that is here is not waited for.
pub proof fn law_present_block_needs_no_wait(s: PresenceState, hash: DataBlockHash, ticket: u64)
    requires
        s.present.contains_key(hash),
    ensures
        s.waited(hash, ticket) == s,
{
}

/// An arrival and a wait touch one block alone: the block is here with its author and height, or the
/// ticket waits behind those that came before.
pub proof fn law_index_changes_one_block(
    s: PresenceState,
    hash: DataBlockHash,
    author: usize,
    height: u64,
    ticket: u64,
    other: DataBlockHash,
)
    requires
        other != hash,
    ensures
        ({
            let a = s.arrived(hash, author, height);
            let w = s.waited(hash, ticket);
            &&& a.present.contains_key(hash) && a.present[hash] == (author, height)
            &&& !a.waiters.contains_key(hash)
            &&& a.present.contains_key(other) == s.present.contains_key(other)
            &&& s.present.contains_key(other) ==> a.present[other] == s.present[other]
            &&& a.waiters.contains_key(other) == s.waiters.contains_key(other)
            &&& s.waiters.contains_key(other) ==> a.waiters[other] == s.waiters[other]
            &&& w.present == s.present
            &&& !s.present.contains_key(hash) && s.waiters.contains_key(hash) ==> w.waiters[hash]
                == s.waiters[hash].push(ticket)
            &&& !s.present.contains_key(hash) && !s.waiters.contains_key(hash) ==> w.waiters[hash] == seq![ticket]
            &&& !s.present.contains_key(hash) ==> w.waiters.contains_key(hash)
            &&& w.waiters.contains_key(other) == s.waiters.contains_key(other)
            &&& s.waiters.contains_key(other) ==> w.waiters[other] == s.waiters[other]
            &&& s.waiters.contains_key(hash) ==> s.waiting(hash) == s.waiters[hash]
            &&& !s.waiters.contains_key(hash) ==> s.waiting(hash).len() == 0
        }),
{
    if !s.present.contains_key(hash) && !s.waiters.contains_key(hash) {
        assert(s.waited(hash, ticket).waiters[hash] =~= seq![ticket]);
    }
}

/// A block is decided by its own author's chain, at its height and above.
pub proof fn law_which_blocks_are_settled(s: PresenceState, hash: DataBlockHash, author: usize, height: u64)
    ensures
        s.settled(hash, author, height) <==> s.present.contains_key(hash) && s.present[hash].0 == author
            && s.present[hash].1 <= height,
{
}

} // verus!
