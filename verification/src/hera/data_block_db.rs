//! A cache of data blocks with a budget in bytes. What leaves it before it has been emitted is
//! handed out to be written to disk.
use crate::digest::same_digest;
use crate::fnv_map::{map_contains, map_get, map_insert, map_len, map_remove};
use crate::hera::types::{DataBlock, DataBlockHash};
use crate::map_sum::{lemma_sum_insert, lemma_sum_remove, map_sum};
use crate::types::share;
use fnv::FnvHashMap;
use std::collections::VecDeque;
use std::sync::Arc;
use vstd::prelude::*;

verus! {

/// The budget of a cache that is not told otherwise.
pub const DEFAULT_DATA_BLOCK_CACHE_BYTES: usize = 134_217_728;

/// What is kept of every admitted block.
#[derive(Clone, Copy)]
pub struct DataBlockMeta {
    pub epoch: u64,
    pub height: u64,
    pub parent_hash: DataBlockHash,
    pub hash: DataBlockHash,
}

/// The metadata of a block.
pub open spec fn meta_of<Tx>(block: DataBlock<Tx>) -> DataBlockMeta {
    DataBlockMeta {
        epoch: block.envelope.epoch,
        height: block.envelope.height,
        parent_hash: block.envelope.parent_hash,
        hash: block.hash,
    }
}

impl DataBlockMeta {
    fn of<Tx>(block: &DataBlock<Tx>) -> (r: Self)
        ensures
            r == meta_of(*block),
    {
        DataBlockMeta {
            epoch: block.envelope.epoch,
            height: block.envelope.height,
            parent_hash: block.envelope.parent_hash,
            hash: block.hash,
        }
    }
}

/// Where a block is.
pub enum Lookup<Tx> {
    /// Here.
    Found(Arc<DataBlock<Tx>>),
    /// Nowhere: it has never been admitted.
    Unknown,
    /// Not here any more: on disk, or gone after its emission.
    Evicted,
}

/// What there is to know of the cache.
#[verifier::ext_equal]
pub struct CacheState<Tx> {
    pub genesis: Arc<DataBlock<Tx>>,
    pub meta: Map<DataBlockHash, DataBlockMeta>,
    pub cache: Map<DataBlockHash, (Arc<DataBlock<Tx>>, usize)>,
    /// The cached blocks, the one that came first at the front.
    pub order: Seq<DataBlockHash>,
    pub cap: usize,
}

/// The sizes of the cached blocks.
pub open spec fn cached_sizes<Tx>(cache: Map<DataBlockHash, (Arc<DataBlock<Tx>>, usize)>) -> Map<DataBlockHash, nat> {
    cache.map_values(|e: (Arc<DataBlock<Tx>>, usize)| e.1 as nat)
}

/// The size that a block counts for: 64 bytes, and 64 more for each transaction.
pub open spec fn size_of_block<Tx>(block: DataBlock<Tx>) -> nat {
    (block.envelope.payload@.len() + 1) * 64
}

impl<Tx> CacheState<Tx> {
    pub open spec fn resident(self) -> nat {
        map_sum(cached_sizes(self.cache))
    }

    /// The genesis block is known, and the order lists the cached blocks, each once.
    pub open spec fn inv(self) -> bool {
        &&& self.cap >= 1
        &&& self.meta.contains_key(self.genesis.hash)
        &&& self.cache.dom().finite()
        &&& self.order.no_duplicates()
        &&& self.order.to_set() == self.cache.dom()
    }

    /// A block is cached. One that is cached already keeps its place.
    pub open spec fn put(self, h: DataBlockHash, block: Arc<DataBlock<Tx>>, size: usize) -> Self {
        CacheState {
            cache: self.cache.insert(h, (block, size)),
            order: if self.cache.contains_key(h) {
                self.order
            } else {
                self.order.push(h)
            },
            ..self
        }
    }

    /// The block is known and cached.
    pub open spec fn stored(self, block: Arc<DataBlock<Tx>>) -> Self {
        CacheState {
            meta: if self.meta.contains_key(block.hash) {
                self.meta
            } else {
                self.meta.insert(block.hash, meta_of(*block))
            },
            ..self.put(block.hash, block, size_of_block(*block) as usize)
        }
    }

    /// The cache after a block was admitted, with the blocks that are handed out for it.
    pub open spec fn inserted(self, block: Arc<DataBlock<Tx>>, emitted: u64) -> (Self, Seq<Arc<DataBlock<Tx>>>) {
        self.stored(block).evicted(emitted)
    }

    /// The cache after several blocks were admitted, each with the height that was emitted by then.
    pub open spec fn filled(self, blocks: Seq<(Arc<DataBlock<Tx>>, u64)>) -> Self
        decreases blocks.len(),
    {
        if blocks.len() == 0 {
            self
        } else {
            self.filled(blocks.drop_last()).inserted(blocks.last().0, blocks.last().1).0
        }
    }

    /// Whether the cached blocks are within the budget. A single block may be over it.
    pub open spec fn within_budget(self) -> bool {
        self.resident() <= self.cap || self.cache.dom().len() <= 1
    }

    /// The block that came first is not cached any more.
    pub open spec fn without_oldest(self) -> Self {
        CacheState {
            cache: self.cache.remove(self.order[0]),
            order: self.order.drop_first(),
            ..self
        }
    }

    /// Whether the cache is over its budget. A single block may be.
    pub open spec fn over(self) -> bool {
        self.resident() > self.cap && self.cache.dom().len() > 1
    }

    /// Blocks leave, first come first gone, until the cache is within its budget. Those above
    /// `emitted` are handed out.
    pub open spec fn evicted(self, emitted: u64) -> (Self, Seq<Arc<DataBlock<Tx>>>)
        decreases self.order.len(),
    {
        if self.over() && self.order.len() > 0 {
            let block = self.cache[self.order[0]].0;
            let rest = self.without_oldest().evicted(emitted);
            (
                rest.0,
                if block.envelope.height > emitted {
                    seq![block].add(rest.1)
                } else {
                    rest.1
                },
            )
        } else {
            (self, Seq::empty())
        }
    }
}

proof fn lemma_resident_insert<Tx>(
    cache: Map<DataBlockHash, (Arc<DataBlock<Tx>>, usize)>,
    k: DataBlockHash,
    e: (Arc<DataBlock<Tx>>, usize),
)
    requires
        cache.dom().finite(),
    ensures
        cache.contains_key(k) ==> cache[k].1 <= map_sum(cached_sizes(cache)) && map_sum(
            cached_sizes(cache.insert(k, e)),
        ) == map_sum(cached_sizes(cache)) - cache[k].1 + e.1,
        !cache.contains_key(k) ==> map_sum(cached_sizes(cache.insert(k, e))) == map_sum(cached_sizes(cache)) + e.1,
{
    let s = cached_sizes(cache);
    assert(s.dom() =~= cache.dom());
    lemma_sum_insert(s, k, e.1 as nat);
    assert(cached_sizes(cache.insert(k, e)) =~= s.insert(k, e.1 as nat));
    if cache.contains_key(k) {
        lemma_sum_remove(s, k);
    }
}

proof fn lemma_resident_remove<Tx>(cache: Map<DataBlockHash, (Arc<DataBlock<Tx>>, usize)>, k: DataBlockHash)
    requires
        cache.dom().finite(),
        cache.contains_key(k),
    ensures
        map_sum(cached_sizes(cache)) == map_sum(cached_sizes(cache.remove(k))) + cache[k].1,
{
    let s = cached_sizes(cache);
    assert(s.dom() =~= cache.dom());
    lemma_sum_remove(s, k);
    assert(cached_sizes(cache.remove(k)) =~= s.remove(k));
}

proof fn lemma_put<Tx>(s: CacheState<Tx>, h: DataBlockHash, block: Arc<DataBlock<Tx>>, size: usize)
    requires
        s.inv(),
    ensures
        s.put(h, block, size).inv(),
{
    let e = s.put(h, block, size);
    if s.cache.contains_key(h) {
        assert(e.order.to_set() =~= e.cache.dom());
    } else {
        let order = e.order;
        assert forall|k: DataBlockHash| #[trigger] order.to_set().contains(k) <==> e.cache.dom().contains(k) by {
            if order.contains(k) {
                let i = choose|i: int| 0 <= i < order.len() && order[i] == k;
                if i < s.order.len() {
                    assert(s.order[i] == k);
                    assert(s.order.to_set().contains(k));
                }
            }
            if e.cache.dom().contains(k) {
                if k == h {
                    assert(order[s.order.len() as int] == k);
                } else {
                    assert(s.order.to_set().contains(k));
                    let i = choose|i: int| 0 <= i < s.order.len() && s.order[i] == k;
                    assert(order[i] == k);
                }
            }
        }
        assert(order.to_set() =~= e.cache.dom());
        assert forall|i: int, j: int| 0 <= i < order.len() && 0 <= j < order.len() && i != j implies order[i]
            != order[j] by {
            if i < s.order.len() {
                assert(s.order.to_set().contains(s.order[i]));
            }
            if j < s.order.len() {
                assert(s.order.to_set().contains(s.order[j]));
            }
        }
    }
}

proof fn lemma_without_oldest<Tx>(s: CacheState<Tx>)
    requires
        s.inv(),
        s.order.len() > 0,
    ensures
        s.cache.contains_key(s.order[0]),
        s.without_oldest().inv(),
        s.resident() == s.without_oldest().resident() + s.cache[s.order[0]].1,
{
    let first = s.order[0];
    assert(s.order.to_set().contains(first));
    let t = s.without_oldest();
    assert forall|h: DataBlockHash| #[trigger] t.order.to_set().contains(h) <==> t.cache.dom().contains(h) by {
        if t.order.contains(h) {
            let i = choose|i: int| 0 <= i < t.order.len() && t.order[i] == h;
            assert(s.order[i + 1] == h);
            assert(s.order.to_set().contains(h));
        }
        if t.cache.dom().contains(h) {
            assert(s.order.to_set().contains(h));
            let i = choose|i: int| 0 <= i < s.order.len() && s.order[i] == h;
            assert(t.order[i - 1] == h);
        }
    }
    assert(t.order.to_set() =~= t.cache.dom());
    assert forall|i: int, j: int| 0 <= i < t.order.len() && 0 <= j < t.order.len() && i != j implies t.order[i]
        != t.order[j] by {
        assert(s.order[i + 1] != s.order[j + 1]);
    }
    lemma_resident_remove(s.cache, first);
}

/// A cache of data blocks.
#[verifier::reject_recursive_types(Tx)]
pub struct DataBlockDB<Tx> {
    meta: FnvHashMap<DataBlockHash, DataBlockMeta>,
    cache: FnvHashMap<DataBlockHash, (Arc<DataBlock<Tx>>, usize)>,
    order: VecDeque<DataBlockHash>,
    resident_bytes: usize,
    cap_bytes: usize,
    genesis: Arc<DataBlock<Tx>>,
}

impl<Tx> DataBlockDB<Tx> {
    pub closed spec fn view(&self) -> CacheState<Tx> {
        CacheState {
            genesis: self.genesis,
            meta: self.meta@,
            cache: self.cache@,
            order: self.order@,
            cap: self.cap_bytes,
        }
    }

    pub closed spec fn wf(&self) -> bool {
        self@.inv() && self.resident_bytes == self@.resident()
    }

    /// What every cache keeps: the genesis block is known, and the order lists the cached blocks, each
    /// once.
    pub proof fn lemma_wf(&self)
        requires
            self.wf(),
        ensures
            self@.inv(),
            self@.resident() <= usize::MAX,
    {
    }

    /// A cache with the default budget, in which only the genesis block is known.
    pub fn new(genesis: Arc<DataBlock<Tx>>) -> (r: Self)
        ensures
            r.wf(),
            r@ == (CacheState {
                genesis,
                meta: map![genesis.hash => meta_of(*genesis)],
                cache: Map::empty(),
                order: Seq::empty(),
                cap: DEFAULT_DATA_BLOCK_CACHE_BYTES,
            }),
    {
        Self::with_byte_budget(genesis, DEFAULT_DATA_BLOCK_CACHE_BYTES)
    }

    /// A cache with a budget of at least 1, in which only the genesis block is known.
    pub fn with_byte_budget(genesis: Arc<DataBlock<Tx>>, cap_bytes: usize) -> (r: Self)
        ensures
            r.wf(),
            r@ == (CacheState {
                genesis,
                meta: map![genesis.hash => meta_of(*genesis)],
                cache: Map::empty(),
                order: Seq::empty(),
                cap: if cap_bytes >= 1 {
                    cap_bytes
                } else {
                    1
                },
            }),
    {
        let mut meta: FnvHashMap<DataBlockHash, DataBlockMeta> = FnvHashMap::default();
        map_insert(&mut meta, genesis.hash, DataBlockMeta::of(&genesis));
        let r = DataBlockDB {
            meta,
            cache: FnvHashMap::default(),
            order: VecDeque::new(),
            resident_bytes: 0,
            cap_bytes: if cap_bytes >= 1 {
                cap_bytes
            } else {
                1
            },
            genesis,
        };
        proof {
            assert(cached_sizes(r@.cache) =~= Map::empty());
            assert(r@.order.to_set() =~= Set::empty());
            assert(r@.meta =~= map![genesis.hash => meta_of(*genesis)]);
            assert(r@.inv());
        }
        r
    }

    /// Whether the block has been admitted.
    pub fn contains(&self, h: &DataBlockHash) -> (r: bool)
        ensures
            r == self@.meta.contains_key(*h),
    {
        map_contains(&self.meta, h)
    }

    /// The metadata of an admitted block.
    pub fn meta(&self, h: &DataBlockHash) -> (r: Option<DataBlockMeta>)
        ensures
            r == (if self@.meta.contains_key(*h) {
                Some(self@.meta[*h])
            } else {
                None
            }),
    {
        match map_get(&self.meta, h) {
            Some(m) => Some(*m),
            None => None,
        }
    }

    /// The epoch of an admitted block.
    pub fn epoch_of(&self, h: &DataBlockHash) -> (r: Option<u64>)
        ensures
            r == (if self@.meta.contains_key(*h) {
                Some(self@.meta[*h].epoch)
            } else {
                None
            }),
    {
        match map_get(&self.meta, h) {
            Some(m) => Some(m.epoch),
            None => None,
        }
    }

    /// The bytes that the cached blocks count for.
    pub fn resident_bytes(&self) -> (r: usize)
        requires
            self.wf(),
        ensures
            r == self@.resident(),
    {
        self.resident_bytes
    }

    /// How many blocks are cached.
    pub fn cached_blocks(&self) -> (r: usize)
        ensures
            r == self@.cache.dom().len(),
    {
        map_len(&self.cache)
    }

    /// The block, if it is the genesis block or cached.
    pub fn cache_get(&self, h: &DataBlockHash) -> (r: Option<Arc<DataBlock<Tx>>>)
        ensures
            r == (if *h == self@.genesis.hash {
                Some(self@.genesis)
            } else if self@.cache.contains_key(*h) {
                Some(self@.cache[*h].0)
            } else {
                None
            }),
    {
        if same_digest(h, &self.genesis.hash) {
            return Some(share(&self.genesis));
        }
        match map_get(&self.cache, h) {
            Some(e) => Some(share(&e.0)),
            None => None,
        }
    }

    /// Where the block is.
    pub fn get(&self, h: &DataBlockHash) -> (r: Lookup<Tx>)
        ensures
            r == (if *h == self@.genesis.hash {
                Lookup::Found(self@.genesis)
            } else if !self@.meta.contains_key(*h) {
                Lookup::Unknown
            } else if self@.cache.contains_key(*h) {
                Lookup::Found(self@.cache[*h].0)
            } else {
                Lookup::Evicted
            }),
    {
        if same_digest(h, &self.genesis.hash) {
            return Lookup::Found(share(&self.genesis));
        }
        if !map_contains(&self.meta, h) {
            return Lookup::Unknown;
        }
        match map_get(&self.cache, h) {
            Some(e) => Lookup::Found(share(&e.0)),
            None => Lookup::Evicted,
        }
    }

    /// Admits a block. Returns the blocks to write to disk: those that leave the cache for it and
    /// are above `emitted`, the height up to which blocks have been emitted.
    pub fn insert(&mut self, block: Arc<DataBlock<Tx>>, emitted: u64) -> (r: Vec<Arc<DataBlock<Tx>>>)
        requires
            old(self).wf(),
            old(self)@.resident() + size_of_block(*block) <= usize::MAX,
        ensures
            final(self).wf(),
            (final(self)@, r@) == old(self)@.inserted(block, emitted),
    {
        let h: DataBlockHash = block.hash;
        if !map_contains(&self.meta, &h) {
            map_insert(&mut self.meta, h, DataBlockMeta::of(&block));
        }
        let size: usize = (block.envelope.payload.len() + 1) * 64;
        self.cache_put(h, block, size, emitted)
    }

    fn cache_put(&mut self, h: DataBlockHash, block: Arc<DataBlock<Tx>>, size: usize, emitted: u64) -> (r: Vec<
        Arc<DataBlock<Tx>>,
    >)
        requires
            old(self).wf(),
            old(self)@.resident() + size <= usize::MAX,
        ensures
            final(self).wf(),
            (final(self)@, r@) == old(self)@.put(h, block, size).evicted(emitted),
    {
        let ghost start = self@;
        proof {
            lemma_resident_insert(start.cache, h, (block, size));
            lemma_put(start, h, block, size);
        }
        match map_insert(&mut self.cache, h, (block, size)) {
            Some(e) => {
                self.resident_bytes = self.resident_bytes + size - e.1;
            },
            None => {
                self.order.push_back(h);
                self.resident_bytes += size;
            },
        }
        let ghost full = self@;
        let mut out: Vec<Arc<DataBlock<Tx>>> = Vec::new();
        proof {
            assert(out@.add(full.evicted(emitted).1) =~= full.evicted(emitted).1);
        }
        while self.resident_bytes > self.cap_bytes && map_len(&self.cache) > 1
            invariant
                self.wf(),
                full.evicted(emitted).0 == self@.evicted(emitted).0,
                full.evicted(emitted).1 == out@.add(self@.evicted(emitted).1),
            decreases self@.order.len(),
        {
            let ghost before = self@;
            proof {
                if before.order.len() == 0 {
                    assert(before.order.to_set() =~= Set::empty());
                    assert(before.cache.dom() =~= Set::empty());
                }
                lemma_without_oldest(before);
            }
            if let Some(old) = self.order.pop_front() {
                assert(before.order.subrange(1, before.order.len() as int) =~= before.order.drop_first());
                if let Some(e) = map_remove(&mut self.cache, &old) {
                    self.resident_bytes = self.resident_bytes - e.1;
                    let ghost rest = before.without_oldest().evicted(emitted).1;
                    assert(self@ =~= before.without_oldest());
                    if e.0.envelope.height > emitted {
                        assert(out@.add(seq![e.0].add(rest)) =~= out@.push(e.0).add(rest));
                        out.push(e.0);
                    }
                }
            }
        }
        assert(out@.add(Seq::empty()) =~= out@);
        out
    }
}

/// A block that leaves the cache before it has been emitted is handed out to be written.
pub proof fn law_unemitted_blocks_are_spilled<Tx>(s: CacheState<Tx>, emitted: u64, h: DataBlockHash)
    requires
        s.inv(),
        s.cache.contains_key(h),
        s.cache[h].0.envelope.height > emitted,
    ensures
        s.evicted(emitted).0.cache.contains_key(h) && s.evicted(emitted).0.cache[h] == s.cache[h]
            || s.evicted(emitted).1.contains(s.cache[h].0),
    decreases s.order.len(),
{
    if s.over() && s.order.len() > 0 {
        lemma_without_oldest(s);
        let block = s.cache[s.order[0]].0;
        let rest = s.without_oldest().evicted(emitted).1;
        let all = s.evicted(emitted).1;
        if s.order[0] == h {
            assert(all[0] == block);
        } else {
            law_unemitted_blocks_are_spilled(s.without_oldest(), emitted, h);
            if rest.contains(s.cache[h].0) {
                let i = choose|i: int| 0 <= i < rest.len() && rest[i] == s.cache[h].0;
                if block.envelope.height > emitted {
                    assert(all[i + 1] == s.cache[h].0);
                }
            }
        }
    }
}

/// Eviction leaves the cache within its budget, or with one block alone. It forgets no admitted
/// block's metadata, and of the cached blocks it keeps the one that came last.
pub proof fn law_cache_within_budget<Tx>(s: CacheState<Tx>, emitted: u64)
    requires
        s.inv(),
    ensures
        ({
            let e = s.evicted(emitted).0;
            &&& e.inv()
            &&& e.meta == s.meta
            &&& e.genesis == s.genesis
            &&& e.cap == s.cap
            &&& e.within_budget()
            &&& forall|h: DataBlockHash| #[trigger] e.cache.contains_key(h) ==> s.cache.contains_key(h) && e.cache[h]
                == s.cache[h]
            &&& s.order.len() > 0 ==> e.cache.contains_key(s.order.last())
        }),
    decreases s.order.len(),
{
    s.order.unique_seq_to_set();
    if s.order.len() > 0 {
        assert(s.order.to_set().contains(s.order.last()));
        lemma_without_oldest(s);
    }
    if s.over() && s.order.len() > 0 {
        let t = s.without_oldest();
        assert(t.order.last() == s.order.last());
        law_cache_within_budget(t, emitted);
    }
}

/// The blocks of these digests that are above a height.
pub open spec fn above<Tx>(
    cache: Map<DataBlockHash, (Arc<DataBlock<Tx>>, usize)>,
    hashes: Seq<DataBlockHash>,
    height: u64,
) -> Seq<Arc<DataBlock<Tx>>>
    decreases hashes.len(),
{
    if hashes.len() == 0 {
        Seq::empty()
    } else {
        let rest = above(cache, hashes.drop_first(), height);
        let block = cache[hashes.first()].0;
        if block.envelope.height > height {
            seq![block].add(rest)
        } else {
            rest
        }
    }
}

proof fn lemma_above_agrees<Tx>(
    a: Map<DataBlockHash, (Arc<DataBlock<Tx>>, usize)>,
    b: Map<DataBlockHash, (Arc<DataBlock<Tx>>, usize)>,
    hashes: Seq<DataBlockHash>,
    height: u64,
)
    requires
        forall|i: int| 0 <= i < hashes.len() ==> a[#[trigger] hashes[i]] == b[hashes[i]],
    ensures
        above(a, hashes, height) == above(b, hashes, height),
    decreases hashes.len(),
{
    if hashes.len() > 0 {
        assert(a[hashes[0]] == b[hashes[0]]);
        assert forall|i: int| 0 <= i < hashes.drop_first().len() implies a[#[trigger] hashes.drop_first()[i]]
            == b[hashes.drop_first()[i]] by {
            assert(hashes.drop_first()[i] == hashes[i + 1]);
        }
        lemma_above_agrees(a, b, hashes.drop_first(), height);
    }
}

/// Blocks leave the cache oldest first: those that came first go, the others stay in their order. Of
/// those that go, exactly the ones that have not been emitted are handed out, oldest first.
pub proof fn law_oldest_blocks_leave<Tx>(s: CacheState<Tx>, emitted: u64)
    requires
        s.inv(),
    ensures
        ({
            let (e, out) = s.evicted(emitted);
            let n = s.order.len() - e.order.len();
            &&& 0 <= n <= s.order.len()
            &&& e.order == s.order.skip(n)
            &&& out == above(s.cache, s.order.take(n), emitted)
            &&& forall|h: DataBlockHash| #[trigger] e.cache.contains_key(h) <==> s.order.skip(n).contains(h)
            &&& forall|h: DataBlockHash| #[trigger] e.cache.contains_key(h) ==> e.cache[h] == s.cache[h]
        }),
    decreases s.order.len(),
{
    let (e, out) = s.evicted(emitted);
    law_cache_within_budget(s, emitted);
    if s.over() && s.order.len() > 0 {
        lemma_without_oldest(s);
        let t = s.without_oldest();
        law_oldest_blocks_leave(t, emitted);
        let m = t.order.len() - e.order.len();
        let n = m + 1;
        assert(t.order.skip(m) =~= s.order.skip(n));
        let gone = t.order.take(m);
        assert(s.order.take(n).drop_first() =~= gone);
        assert forall|i: int| 0 <= i < gone.len() implies t.cache[#[trigger] gone[i]] == s.cache[gone[i]] by {
            assert(gone[i] == s.order[i + 1]);
            assert(s.order[i + 1] != s.order[0]);
        }
        lemma_above_agrees(t.cache, s.cache, gone, emitted);
    } else {
        assert(s.order.skip(0) =~= s.order);
        assert(s.order.take(0) =~= Seq::empty());
    }
    assert forall|h: DataBlockHash| #[trigger] e.cache.contains_key(h) <==> e.order.contains(h) by {
        assert(e.order.to_set().contains(h) <==> e.cache.dom().contains(h));
    }
}

/// An admitted block is cached, is found by its digest, and is the only one that changes: every other
/// block that is still cached is the one that was. What was known is known on, and the cache is within
/// its budget.
pub proof fn law_insert_caches_block<Tx>(s: CacheState<Tx>, block: Arc<DataBlock<Tx>>, emitted: u64)
    requires
        s.inv(),
    ensures
        ({
            let e = s.inserted(block, emitted).0;
            &&& e.inv()
            &&& e.within_budget()
            &&& !s.cache.contains_key(block.hash) ==> e.cache.contains_key(block.hash)
            &&& e.cache.contains_key(block.hash) ==> e.cache[block.hash].0 == block
            &&& forall|h: DataBlockHash|
                h != block.hash && #[trigger] e.cache.contains_key(h) ==> s.cache.contains_key(h) && e.cache[h]
                    == s.cache[h]
            &&& e.meta.contains_key(block.hash)
            &&& forall|h: DataBlockHash| #[trigger] s.meta.contains_key(h) ==> e.meta.contains_key(h) && e.meta[h]
                == s.meta[h]
            &&& e.cap == s.cap
            &&& e.genesis == s.genesis
        }),
{
    let p = s.stored(block);
    lemma_put(s, block.hash, block, p.cache[block.hash].1);
    law_cache_within_budget(p, emitted);
    if !s.cache.contains_key(block.hash) {
        assert(p.order.last() == block.hash);
    }
}

/// The block that was admitted last under a digest.
pub open spec fn last_admitted<Tx>(blocks: Seq<(Arc<DataBlock<Tx>>, u64)>, h: DataBlockHash) -> Option<Arc<DataBlock<Tx>>>
    decreases blocks.len(),
{
    if blocks.len() == 0 {
        None
    } else if blocks.last().0.hash == h {
        Some(blocks.last().0)
    } else {
        last_admitted(blocks.drop_last(), h)
    }
}

/// Whatever blocks are admitted, one after the other: what is cached under a digest is the block that
/// was admitted last under it, every admitted block is known on, and the cache is within its budget.
pub proof fn law_cache_holds_last_admitted<Tx>(
    s: CacheState<Tx>,
    blocks: Seq<(Arc<DataBlock<Tx>>, u64)>,
    h: DataBlockHash,
)
    requires
        s.inv(),
        s.within_budget(),
    ensures
        ({
            let e = s.filled(blocks);
            &&& e.inv()
            &&& e.within_budget()
            &&& e.cap == s.cap
            &&& last_admitted(blocks, h) is Some ==> e.meta.contains_key(h)
            &&& s.meta.contains_key(h) ==> e.meta.contains_key(h)
            &&& e.cache.contains_key(h) ==> (match last_admitted(blocks, h) {
                Some(b) => e.cache[h].0 == b,
                None => s.cache.contains_key(h) && e.cache[h] == s.cache[h],
            })
        }),
    decreases blocks.len(),
{
    if blocks.len() > 0 {
        let rest = blocks.drop_last();
        law_cache_holds_last_admitted(s, rest, h);
        law_insert_caches_block(s.filled(rest), blocks.last().0, blocks.last().1);
    }
}

/// What is kept of a block is its own epoch, height, parent and digest, and it counts 64 bytes and as many
/// for each transaction.
pub proof fn law_what_is_kept_of_a_block<Tx>(block: DataBlock<Tx>)
    ensures
        meta_of(block).epoch == block.envelope.epoch,
        meta_of(block).height == block.envelope.height,
        meta_of(block).parent_hash == block.envelope.parent_hash,
        meta_of(block).hash == block.hash,
        size_of_block(block) == 64 + 64 * block.envelope.payload@.len(),
{
}

/// The resident bytes are those of each cached block, counted once.
pub proof fn law_resident_bytes_add_up<Tx>(
    s: CacheState<Tx>,
    h: DataBlockHash,
    e: (Arc<DataBlock<Tx>>, usize),
)
    requires
        s.cache.dom().finite(),
    ensures
        s.cache.dom() == Set::<DataBlockHash>::empty() ==> s.resident() == 0,
        !s.cache.contains_key(h) ==> (CacheState { cache: s.cache.insert(h, e), ..s }).resident() == s.resident() + e.1,
{
    lemma_resident_insert(s.cache, h, e);
    assert(cached_sizes(s.cache).dom() =~= s.cache.dom());
}

/// A block comes to the cache with its size and its metadata, last in the order, and nothing leaves if it
/// fits. One that is cached already keeps its place, and metadata that is known stays.
pub proof fn law_block_that_fits<Tx>(s: CacheState<Tx>, block: Arc<DataBlock<Tx>>, emitted: u64)
    requires
        s.inv(),
        s.resident() + size_of_block(*block) <= s.cap,
    ensures
        ({
            let (e, out) = s.inserted(block, emitted);
            &&& out.len() == 0
            &&& e.cache == s.cache.insert(block.hash, (block, size_of_block(*block) as usize))
            &&& s.cache.contains_key(block.hash) ==> e.order == s.order
            &&& !s.cache.contains_key(block.hash) ==> e.order == s.order.push(block.hash)
            &&& s.meta.contains_key(block.hash) ==> e.meta == s.meta
            &&& !s.meta.contains_key(block.hash) ==> e.meta == s.meta.insert(block.hash, meta_of(*block))
        }),
{
    let p = s.stored(block);
    lemma_resident_insert(s.cache, block.hash, p.cache[block.hash]);
}

/// No block leaves without need: before the last one left, the cache was over its budget.
pub proof fn law_no_block_leaves_without_need<Tx>(s: CacheState<Tx>, emitted: u64)
    requires
        s.inv(),
    ensures
        ({
            let e = s.evicted(emitted).0;
            let n = s.order.len() - e.order.len();
            &&& n > 0 ==> e.resident() + s.cache[s.order[n - 1]].1 > s.cap
            &&& s.resident() <= s.cap || s.order.len() <= 1 ==> e == s && s.evicted(emitted).1.len() == 0
        }),
    decreases s.order.len(),
{
    s.order.unique_seq_to_set();
    law_cache_within_budget(s, emitted);
    if s.over() && s.order.len() > 0 {
        lemma_without_oldest(s);
        let t = s.without_oldest();
        law_no_block_leaves_without_need(t, emitted);
        law_oldest_blocks_leave(t, emitted);
        let e = s.evicted(emitted).0;
        let n = s.order.len() - e.order.len();
        if n > 1 {
            assert(t.order[n - 2] == s.order[n - 1]);
            assert(s.order[n - 1] != s.order[0]);
        } else if t.over() {
            t.order.unique_seq_to_set();
            lemma_without_oldest(t);
            law_oldest_blocks_leave(t.without_oldest(), emitted);
        }
    }
}

} // verus!
