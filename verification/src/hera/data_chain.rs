//! The data chains of all authors, as far as their metadata goes.
use crate::digest::same_digest;
use crate::fnv_map::{map_get, map_insert, map_len, map_remove};
use crate::hera::types::{DataBlock, DataBlockHash};
use crate::types::share;
use fnv::FnvHashMap;
use std::collections::VecDeque;
use std::sync::Arc;
use vstd::prelude::*;

verus! {

/// The most children that may wait for their parents. Where one more comes, the one that has waited
/// longest is let go.
pub const MAX_PENDING: usize = 4096;

/// The storage key of a data block: the letter `D`, then the digest.
pub open spec fn spec_data_block_key(hash: DataBlockHash) -> Seq<u8> {
    seq![68u8].add(hash@)
}

pub fn data_block_key(hash: &DataBlockHash) -> (r: Vec<u8>)
    ensures
        r@ == spec_data_block_key(*hash),
{
    let mut key: Vec<u8> = Vec::new();
    key.push(68);
    let mut i: usize = 0;
    while i < 32
        invariant
            i <= 32,
            key@ == seq![68u8].add(hash@.take(i as int)),
        decreases 32 - i,
    {
        key.push(hash[i]);
        assert(hash@.take(i as int + 1) =~= hash@.take(i as int).push(hash@[i as int]));
        assert(key@ =~= seq![68u8].add(hash@.take(i as int + 1)));
        i += 1;
    }
    assert(hash@.take(32) =~= hash@);
    key
}

/// An author's admitted head, as one consistent value.
#[derive(Clone, Copy)]
pub struct DataHeadSnapshot {
    pub epoch: u64,
    pub height: u64,
    pub hash: DataBlockHash,
}

/// What became of a block that asked for admission.
pub enum AdmitTypedResult {
    /// It extends its author's head.
    Extended,
    /// It waits for the parent named here.
    Parked(DataBlockHash),
    /// Its height is not above its author's head.
    Duplicate,
    /// Its author is unknown, or it claims to start a chain that has started.
    Invalid,
}

/// What there is to know of the data chains.
#[verifier::ext_equal]
pub struct ChainsState {
    pub genesis_hash: DataBlockHash,
    pub heads: Map<usize, DataBlockHash>,
    pub heights: Map<usize, u64>,
    pub committed: Map<usize, u64>,
    /// The children that wait for each missing parent, by digest and height, the first one to come
    /// first.
    pub pending: Map<DataBlockHash, Seq<(DataBlockHash, u64)>>,
    /// The parents that are waited for, once for each child, in the order the children came.
    pub arrivals: Seq<DataBlockHash>,
    pub snapshots: Map<usize, DataHeadSnapshot>,
}

/// How often a digest occurs in a list.
pub open spec fn count(list: Seq<DataBlockHash>, hash: DataBlockHash) -> nat
    decreases list.len(),
{
    if list.len() == 0 {
        0
    } else {
        count(list.drop_last(), hash) + if list.last() == hash {
            1nat
        } else {
            0nat
        }
    }
}

/// A list without a digest.
pub open spec fn without(list: Seq<DataBlockHash>, hash: DataBlockHash) -> Seq<DataBlockHash>
    decreases list.len(),
{
    if list.len() == 0 {
        list
    } else if list.last() == hash {
        without(list.drop_last(), hash)
    } else {
        without(list.drop_last(), hash).push(list.last())
    }
}

/// The first digest of a list counts once, the others as before.
pub proof fn lemma_count_first(list: Seq<DataBlockHash>, hash: DataBlockHash)
    requires
        list.len() > 0,
    ensures
        count(list, hash) == count(list.drop_first(), hash) + if list.first() == hash {
            1nat
        } else {
            0nat
        },
    decreases list.len(),
{
    if list.len() > 1 {
        lemma_count_first(list.drop_last(), hash);
        assert(list.drop_last().drop_first() =~= list.drop_first().drop_last());
    } else {
        assert(list.drop_last() =~= list.drop_first());
    }
}

proof fn lemma_count_without(list: Seq<DataBlockHash>, hash: DataBlockHash, other: DataBlockHash)
    ensures
        count(without(list, hash), other) == (if other == hash {
            0
        } else {
            count(list, other)
        }),
        without(list, hash).len() <= list.len(),
    decreases list.len(),
{
    if list.len() > 0 {
        lemma_count_without(list.drop_last(), hash, other);
        if list.last() != hash {
            let w = without(list.drop_last(), hash);
            assert(w.push(list.last()).drop_last() =~= w);
        }
    }
}

impl ChainsState {
    pub open spec fn head_height(self, author: usize) -> u64 {
        if self.heights.contains_key(author) {
            self.heights[author]
        } else {
            0
        }
    }

    pub open spec fn committed_height(self, author: usize) -> u64 {
        if self.committed.contains_key(author) {
            self.committed[author]
        } else {
            0
        }
    }

    /// Every author has a head, a height and a snapshot of both; not too many children wait, and
    /// the list of arrivals names each parent as often as children wait for it.
    pub open spec fn inv(self) -> bool {
        &&& self.heights.dom() == self.heads.dom()
        &&& self.snapshots.dom() == self.heads.dom()
        &&& forall|a: usize| #[trigger] self.heads.contains_key(a) ==> self.snapshots[a].hash == self.heads[a]
            && self.snapshots[a].height == self.heights[a]
        &&& self.pending.dom().finite()
        &&& self.arrivals.len() <= MAX_PENDING
        &&& forall|h: DataBlockHash| #[trigger] self.pending.contains_key(h) ==> self.pending[h].len() == count(
            self.arrivals,
            h,
        )
        &&& forall|h: DataBlockHash| #[trigger] self.pending.contains_key(h) <==> count(self.arrivals, h) > 0
    }

    /// The author's head moves to this block.
    pub open spec fn advanced(self, author: usize, hash: DataBlockHash, height: u64, epoch: u64) -> Self {
        ChainsState {
            heads: self.heads.insert(author, hash),
            heights: self.heights.insert(author, height),
            snapshots: self.snapshots.insert(author, DataHeadSnapshot { epoch, height, hash }),
            ..self
        }
    }

    /// Nobody waits for this parent any more.
    pub open spec fn unparked(self, parent: DataBlockHash) -> Self {
        ChainsState {
            pending: self.pending.remove(parent),
            arrivals: without(self.arrivals, parent),
            ..self
        }
    }

    /// The head moves on for as long as a child waits for it: to the one that came first. The
    /// others are let go.
    pub open spec fn bridged(self, author: usize, epoch: u64) -> Self
        decreases self.pending.dom().len(),
    {
        let head = self.heads[author];
        if self.pending.dom().finite() && self.pending.contains_key(head) {
            let child = self.pending[head][0];
            self.unparked(head).advanced(author, child.0, child.1, epoch).bridged(author, epoch)
        } else {
            self
        }
    }

    /// The child that has waited longest is let go.
    pub open spec fn oldest_dropped(self) -> Self {
        let parent = self.arrivals.first();
        let line = self.pending[parent].drop_first();
        ChainsState {
            pending: if line.len() == 0 {
                self.pending.remove(parent)
            } else {
                self.pending.insert(parent, line)
            },
            arrivals: self.arrivals.drop_first(),
            ..self
        }
    }

    /// The children that wait for a parent.
    pub open spec fn line(self, parent: DataBlockHash) -> Seq<(DataBlockHash, u64)> {
        if self.pending.contains_key(parent) {
            self.pending[parent]
        } else {
            Seq::empty()
        }
    }

    /// A child waits for its parent. Where as many wait as may, the one that has waited longest is
    /// let go first.
    pub open spec fn parked(self, hash: DataBlockHash, height: u64, parent: DataBlockHash) -> Self {
        let s = if self.arrivals.len() >= MAX_PENDING {
            self.oldest_dropped()
        } else {
            self
        };
        ChainsState {
            pending: s.pending.insert(parent, s.line(parent).push((hash, height))),
            arrivals: s.arrivals.push(parent),
            ..s
        }
    }

    /// What admission answers.
    pub open spec fn verdict(self, height: u64, parent: DataBlockHash, author: usize) -> AdmitTypedResult {
        if height <= self.head_height(author) {
            AdmitTypedResult::Duplicate
        } else if !self.heads.contains_key(author) {
            AdmitTypedResult::Invalid
        } else if parent == self.heads[author] {
            AdmitTypedResult::Extended
        } else if parent == self.genesis_hash && height <= self.head_height(author) + 1 {
            AdmitTypedResult::Invalid
        } else {
            AdmitTypedResult::Parked(parent)
        }
    }

    /// The chains after the block has asked for admission.
    pub open spec fn admitted(
        self,
        hash: DataBlockHash,
        height: u64,
        parent: DataBlockHash,
        author: usize,
        epoch: u64,
    ) -> Self {
        match self.verdict(height, parent, author) {
            AdmitTypedResult::Extended => self.advanced(author, hash, height, epoch).bridged(author, epoch),
            AdmitTypedResult::Parked(p) => self.parked(hash, height, p),
            _ => self,
        }
    }
}

/// The walk down an author's chain from a block: the blocks above `from_height`, tip first, for as
/// long as the bodies are there. `steps` bounds the walk.
pub open spec fn descent<Tx>(
    store: Map<DataBlockHash, Arc<DataBlock<Tx>>>,
    genesis_hash: DataBlockHash,
    tip: DataBlockHash,
    from_height: u64,
    steps: nat,
) -> Seq<Arc<DataBlock<Tx>>>
    decreases steps,
{
    if steps == 0 || tip == genesis_hash || !store.contains_key(tip) {
        Seq::empty()
    } else {
        let block = store[tip];
        if block.envelope.height <= from_height {
            Seq::empty()
        } else if block.envelope.height <= from_height + 1 {
            seq![block]
        } else {
            seq![block].add(
                descent(store, genesis_hash, block.envelope.parent_hash, from_height, (steps - 1) as nat),
            )
        }
    }
}

/// A descent turned upside down, without what lies above `to_height`.
pub open spec fn ascending<Tx>(blocks: Seq<Arc<DataBlock<Tx>>>, to_height: u64) -> Seq<Arc<DataBlock<Tx>>>
    decreases blocks.len(),
{
    if blocks.len() == 0 {
        Seq::empty()
    } else {
        let rest = ascending(blocks.drop_first(), to_height);
        if blocks.first().envelope.height <= to_height {
            rest.push(blocks.first())
        } else {
            rest
        }
    }
}

/// The blocks of a chain from `from_height + 1` up to `to_height`, lowest first.
pub open spec fn range_of<Tx>(
    store: Map<DataBlockHash, Arc<DataBlock<Tx>>>,
    genesis_hash: DataBlockHash,
    tip: DataBlockHash,
    from_height: u64,
    to_height: u64,
) -> Seq<Arc<DataBlock<Tx>>> {
    if to_height <= from_height {
        Seq::empty()
    } else {
        ascending(descent(store, genesis_hash, tip, from_height, store.dom().len()), to_height)
    }
}

/// The metadata of all data chains.
pub struct MultiAuthorDataChainState {
    genesis_hash: DataBlockHash,
    heads: FnvHashMap<usize, DataBlockHash>,
    heights: FnvHashMap<usize, u64>,
    committed_heights: FnvHashMap<usize, u64>,
    pending_data_blocks: FnvHashMap<DataBlockHash, Vec<(DataBlockHash, u64)>>,
    arrivals: VecDeque<DataBlockHash>,
    head_snapshots: FnvHashMap<usize, DataHeadSnapshot>,
}

impl MultiAuthorDataChainState {
    pub closed spec fn view(&self) -> ChainsState {
        ChainsState {
            genesis_hash: self.genesis_hash,
            heads: self.heads@,
            heights: self.heights@,
            committed: self.committed_heights@,
            pending: self.pending_data_blocks@.map_values(|v: Vec<(DataBlockHash, u64)>| v@),
            arrivals: self.arrivals@,
            snapshots: self.head_snapshots@,
        }
    }

    pub open spec fn wf(&self) -> bool {
        self@.inv()
    }

    /// All authors stand at the genesis block.
    pub fn new(all_ids: &[usize], genesis_hash: DataBlockHash) -> (r: Self)
        ensures
            r.wf(),
            r@.genesis_hash == genesis_hash,
            r@.heads == all_ids@.to_set().mk_map(|a: usize| genesis_hash),
            r@.heights == all_ids@.to_set().mk_map(|a: usize| 0u64),
            r@.committed == all_ids@.to_set().mk_map(|a: usize| 0u64),
            r@.snapshots == all_ids@.to_set().mk_map(
                |a: usize| (DataHeadSnapshot { epoch: 0, height: 0, hash: genesis_hash }),
            ),
            r@.pending == Map::<DataBlockHash, Seq<(DataBlockHash, u64)>>::empty(),
            r@.arrivals == Seq::<DataBlockHash>::empty(),
    {
        let mut r = MultiAuthorDataChainState {
            genesis_hash,
            heads: FnvHashMap::default(),
            heights: FnvHashMap::default(),
            committed_heights: FnvHashMap::default(),
            pending_data_blocks: FnvHashMap::default(),
            arrivals: VecDeque::new(),
            head_snapshots: FnvHashMap::default(),
        };
        let mut i: usize = 0;
        proof {
            assert(all_ids@.take(0).to_set() =~= Set::empty());
            assert(r@.pending =~= Map::empty());
            assert(r@.arrivals =~= Seq::empty());
        }
        while i < all_ids.len()
            invariant
                i <= all_ids@.len(),
                r@.genesis_hash == genesis_hash,
                r@.pending == Map::<DataBlockHash, Seq<(DataBlockHash, u64)>>::empty(),
                r@.arrivals == Seq::<DataBlockHash>::empty(),
                r@.heads =~= all_ids@.take(i as int).to_set().mk_map(|a: usize| genesis_hash),
                r@.heights =~= all_ids@.take(i as int).to_set().mk_map(|a: usize| 0u64),
                r@.committed =~= all_ids@.take(i as int).to_set().mk_map(|a: usize| 0u64),
                r@.snapshots =~= all_ids@.take(i as int).to_set().mk_map(
                    |a: usize| (DataHeadSnapshot { epoch: 0, height: 0, hash: genesis_hash }),
                ),
            decreases all_ids@.len() - i,
        {
            let id: usize = all_ids[i];
            let ghost prior = all_ids@.take(i as int);
            let ghost next = all_ids@.take(i as int + 1);
            proof {
                assert(next =~= prior.push(id));
                assert(next.to_set() =~= prior.to_set().insert(id)) by {
                    assert(next[i as int] == id);
                    assert forall|a: usize| prior.contains(a) implies #[trigger] next.contains(a) by {
                        let j = choose|j: int| 0 <= j < prior.len() && prior[j] == a;
                        assert(next[j] == a);
                    }
                }
            }
            map_insert(&mut r.heads, id, genesis_hash);
            map_insert(&mut r.heights, id, 0);
            map_insert(&mut r.committed_heights, id, 0);
            map_insert(&mut r.head_snapshots, id, DataHeadSnapshot { epoch: 0, height: 0, hash: genesis_hash });
            i += 1;
        }
        assert(all_ids@.take(i as int) =~= all_ids@);
        proof {
            assert(r@.heads.dom() =~= all_ids@.to_set());
            assert(r@.heights.dom() =~= all_ids@.to_set());
            assert(r@.snapshots.dom() =~= all_ids@.to_set());
            assert(r@.inv());
        }
        r
    }

    /// The digest of the author's head.
    pub fn head_hash(&self, author: usize) -> (r: Option<DataBlockHash>)
        ensures
            r == (if self@.heads.contains_key(author) {
                Some(self@.heads[author])
            } else {
                None
            }),
    {
        match map_get(&self.heads, &author) {
            Some(h) => Some(*h),
            None => None,
        }
    }

    /// The height of the author's head.
    pub fn head_height(&self, author: usize) -> (r: u64)
        ensures
            r == self@.head_height(author),
    {
        match map_get(&self.heights, &author) {
            Some(h) => *h,
            None => 0,
        }
    }

    /// The height up to which the author's chain is decided.
    pub fn committed_height(&self, author: usize) -> (r: u64)
        ensures
            r == self@.committed_height(author),
    {
        match map_get(&self.committed_heights, &author) {
            Some(h) => *h,
            None => 0,
        }
    }

    /// Notes the height up to which the author's chain is decided.
    pub fn set_committed_height(&mut self, author: usize, height: u64)
        requires
            old(self).wf(),
        ensures
            final(self).wf(),
            final(self)@ == (ChainsState {
                committed: old(self)@.committed.insert(author, height),
                ..old(self)@
            }),
    {
        map_insert(&mut self.committed_heights, author, height);
    }

    /// The author's admitted head: epoch, height and digest of one and the same block.
    pub fn load_head_snapshot(&self, author: usize) -> (r: Option<DataHeadSnapshot>)
        ensures
            r == (if self@.snapshots.contains_key(author) {
                Some(self@.snapshots[author])
            } else {
                None
            }),
    {
        match map_get(&self.head_snapshots, &author) {
            Some(s) => Some(*s),
            None => None,
        }
    }

    /// Publishes the author's head, as one of this epoch. An unknown author has none.
    pub fn publish_head(&mut self, author: usize, epoch: u64)
        requires
            old(self).wf(),
        ensures
            final(self).wf(),
            final(self)@ == (if old(self)@.heads.contains_key(author) {
                ChainsState {
                    snapshots: old(self)@.snapshots.insert(
                        author,
                        DataHeadSnapshot {
                            epoch,
                            height: old(self)@.heights[author],
                            hash: old(self)@.heads[author],
                        },
                    ),
                    ..old(self)@
                }
            } else {
                old(self)@
            }),
    {
        let ghost start = self@;
        let hash: DataBlockHash = match map_get(&self.heads, &author) {
            Some(h) => *h,
            None => {
                return;
            },
        };
        let height: u64 = self.head_height(author);
        map_insert(&mut self.head_snapshots, author, DataHeadSnapshot { epoch, height, hash });
        proof {
            assert(start.heads.dom().contains(author));
            assert(self@.snapshots.dom() =~= self@.heads.dom());
            assert forall|a: usize| #[trigger] self@.heads.contains_key(a) implies self@.snapshots[a].hash == self@.heads[a]
                && self@.snapshots[a].height == self@.heights[a] by {
                assert(start.heads.contains_key(a));
            }
        }
    }

    fn advance(&mut self, author: usize, hash: DataBlockHash, height: u64, epoch: u64)
        ensures
            final(self)@ == old(self)@.advanced(author, hash, height, epoch),
    {
        map_insert(&mut self.heads, author, hash);
        map_insert(&mut self.heights, author, height);
        map_insert(&mut self.head_snapshots, author, DataHeadSnapshot { epoch, height, hash });
    }

    /// Asks for the admission of a block whose signature has been verified.
    pub fn admit_metadata(
        &mut self,
        hash: DataBlockHash,
        height: u64,
        parent_hash: DataBlockHash,
        author: usize,
        epoch: u64,
    ) -> (r: AdmitTypedResult)
        requires
            old(self).wf(),
        ensures
            final(self).wf(),
            r == old(self)@.verdict(height, parent_hash, author),
            final(self)@ == old(self)@.admitted(hash, height, parent_hash, author, epoch),
    {
        let head_height: u64 = self.head_height(author);
        if height <= head_height {
            return AdmitTypedResult::Duplicate;
        }
        let head: DataBlockHash = match self.head_hash(author) {
            Some(h) => h,
            None => {
                return AdmitTypedResult::Invalid;
            },
        };
        if same_digest(&parent_hash, &head) {
            let ghost before = self@;
            self.advance(author, hash, height, epoch);
            proof {
                assert(self@.heights.dom() =~= self@.heads.dom());
                assert(self@.snapshots.dom() =~= self@.heads.dom());
                assert forall|a: usize| #[trigger] self@.heads.contains_key(a) implies self@.snapshots[a].hash == self@.heads[a]
                    && self@.snapshots[a].height == self@.heights[a] by {
                    assert(a == author || before.heads.contains_key(a));
                }
            }
            self.bridge_pending(author, epoch);
            AdmitTypedResult::Extended
        } else {
            if same_digest(&parent_hash, &self.genesis_hash) && height <= head_height + 1 {
                return AdmitTypedResult::Invalid;
            }
            self.park(hash, height, parent_hash);
            AdmitTypedResult::Parked(parent_hash)
        }
    }

    fn park(&mut self, hash: DataBlockHash, height: u64, parent: DataBlockHash)
        requires
            old(self).wf(),
        ensures
            final(self).wf(),
            final(self)@ == old(self)@.parked(hash, height, parent),
    {
        let ghost start = self@;
        if self.arrivals.len() >= MAX_PENDING {
            self.drop_oldest();
        }
        let ghost mid = self@;
        let mut line: Vec<(DataBlockHash, u64)> = match map_remove(&mut self.pending_data_blocks, &parent) {
            Some(v) => v,
            None => Vec::new(),
        };
        assert(line@ =~= mid.line(parent));
        line.push((hash, height));
        map_insert(&mut self.pending_data_blocks, parent, line);
        self.arrivals.push_back(parent);
        proof {
            let end = start.parked(hash, height, parent);
            assert(self@.pending =~= end.pending);
            assert(self@ =~= end);
            assert(end.arrivals.drop_last() =~= mid.arrivals);
            assert forall|h: DataBlockHash| count(end.arrivals, h) == count(mid.arrivals, h) + if h == parent {
                1nat
            } else {
                0nat
            } by {}
            assert forall|h: DataBlockHash| #[trigger] end.pending.contains_key(h) <==> count(end.arrivals, h) > 0 by {
                assert(mid.pending.contains_key(h) <==> count(mid.arrivals, h) > 0);
            }
            assert forall|h: DataBlockHash| #[trigger] end.pending.contains_key(h) implies end.pending[h].len() == count(
                end.arrivals,
                h,
            ) by {
                assert(mid.pending.contains_key(h) <==> count(mid.arrivals, h) > 0);
            }
        }
    }

    /// Lets the child go that has waited longest.
    fn drop_oldest(&mut self)
        requires
            old(self).wf(),
            old(self)@.arrivals.len() > 0,
        ensures
            final(self).wf(),
            final(self)@ == old(self)@.oldest_dropped(),
            final(self)@.arrivals.len() == old(self)@.arrivals.len() - 1,
    {
        let ghost start = self@;
        if let Some(parent) = self.arrivals.pop_front() {
            assert(start.arrivals.subrange(1, start.arrivals.len() as int) =~= start.arrivals.drop_first());
            proof {
                lemma_count_first(start.arrivals, parent);
                assert(start.pending.contains_key(parent));
            }
            if let Some(v) = map_remove(&mut self.pending_data_blocks, &parent) {
                let mut line = v;
                assert(line@ == start.pending[parent]);
                line.remove(0);
                assert(line@ =~= start.pending[parent].drop_first());
                if line.len() > 0 {
                    map_insert(&mut self.pending_data_blocks, parent, line);
                }
            }
            proof {
                let end = start.oldest_dropped();
                assert(self@.pending =~= end.pending);
                assert(self@ =~= end);
                assert forall|h: DataBlockHash| #[trigger] end.pending.contains_key(h) <==> count(end.arrivals, h) > 0 by {
                    lemma_count_first(start.arrivals, h);
                    assert(start.pending.contains_key(h) <==> count(start.arrivals, h) > 0);
                }
                assert forall|h: DataBlockHash| #[trigger] end.pending.contains_key(h) implies end.pending[h].len() == count(
                    end.arrivals,
                    h,
                ) by {
                    lemma_count_first(start.arrivals, h);
                    assert(start.pending.contains_key(h) <==> count(start.arrivals, h) > 0);
                }
            }
        }
    }

    /// Takes a parent off the list of arrivals.
    fn forget(&mut self, parent: &DataBlockHash)
        ensures
            final(self)@ == (ChainsState { arrivals: without(old(self)@.arrivals, *parent), ..old(self)@ }),
    {
        let n: usize = self.arrivals.len();
        let ghost all = self.arrivals@;
        let mut kept: VecDeque<DataBlockHash> = VecDeque::new();
        let mut i: usize = 0;
        assert(all.take(0) =~= Seq::empty());
        assert(all.skip(0) =~= all);
        while i < n
            invariant
                i <= n == all.len(),
                all == old(self)@.arrivals,
                kept@ == without(all.take(i as int), *parent),
                self@ == (ChainsState { arrivals: all.skip(i as int), ..old(self)@ }),
            decreases n - i,
        {
            if let Some(h) = self.arrivals.pop_front() {
                assert(h == all[i as int]);
                assert(all.skip(i as int).subrange(1, all.skip(i as int).len() as int) =~= all.skip(i as int + 1));
                assert(all.take(i as int + 1).drop_last() =~= all.take(i as int));
                if !same_digest(&h, parent) {
                    kept.push_back(h);
                }
            }
            i += 1;
        }
        assert(all.take(n as int) =~= all);
        self.arrivals = kept;
    }

    /// Moves the author's head over the children that wait for it.
    fn bridge_pending(&mut self, author: usize, epoch: u64)
        requires
            old(self).wf(),
            old(self)@.heads.contains_key(author),
        ensures
            final(self).wf(),
            final(self)@ == old(self)@.bridged(author, epoch),
    {
        loop
            invariant
                self.wf(),
                self@.heads.contains_key(author),
                self@.bridged(author, epoch) == old(self)@.bridged(author, epoch),
            decreases self@.pending.dom().len(),
        {
            let head: DataBlockHash = match map_get(&self.heads, &author) {
                Some(h) => *h,
                None => {
                    return;
                },
            };
            let ghost before = self@;
            let line: Vec<(DataBlockHash, u64)> = match map_remove(&mut self.pending_data_blocks, &head) {
                Some(v) => v,
                None => {
                    assert(self@.pending =~= before.pending);
                    assert(self@ =~= before);
                    return;
                },
            };
            assert(before.pending.contains_key(head));
            assert(before.pending[head] == line@);
            self.forget(&head);
            proof {
                assert(self@.pending =~= before.pending.remove(head));
                assert(self@ =~= before.unparked(head));
                assert forall|h: DataBlockHash| #[trigger] self@.pending.contains_key(h) <==> count(self@.arrivals, h) > 0 by {
                    lemma_count_without(before.arrivals, head, h);
                    assert(before.pending.contains_key(h) <==> count(before.arrivals, h) > 0);
                }
                assert forall|h: DataBlockHash| #[trigger] self@.pending.contains_key(h) implies self@.pending[h].len() == count(
                    self@.arrivals,
                    h,
                ) by {
                    lemma_count_without(before.arrivals, head, h);
                    assert(before.pending.contains_key(h) <==> count(before.arrivals, h) > 0);
                }
                lemma_count_without(before.arrivals, head, head);
            }
            let child: (DataBlockHash, u64) = line[0];
            self.advance(author, child.0, child.1, epoch);
            proof {
                assert(self@ =~= before.unparked(head).advanced(author, child.0, child.1, epoch));
                assert(self@.heights.dom() =~= self@.heads.dom());
                assert(self@.snapshots.dom() =~= self@.heads.dom());
                assert forall|a: usize| #[trigger] self@.heads.contains_key(a) implies self@.snapshots[a].hash == self@.heads[a]
                    && self@.snapshots[a].height == self@.heights[a] by {
                    assert(a == author || before.heads.contains_key(a));
                }
                assert(self@.pending.dom() =~= before.pending.dom().remove(head));
            }
        }
    }

    /// The blocks of the chain below `tip_hash`, from `from_height + 1` up to `to_height`, lowest
    /// first. The walk ends early where a body is missing.
    pub fn walk_range<Tx>(
        &self,
        block_store: &FnvHashMap<DataBlockHash, Arc<DataBlock<Tx>>>,
        tip_hash: &DataBlockHash,
        from_height: u64,
        to_height: u64,
    ) -> (r: Vec<Arc<DataBlock<Tx>>>)
        ensures
            r@ == range_of(block_store@, self@.genesis_hash, *tip_hash, from_height, to_height),
    {
        if to_height <= from_height {
            return Vec::new();
        }
        let mut chain: Vec<Arc<DataBlock<Tx>>> = Vec::new();
        let mut current: DataBlockHash = *tip_hash;
        let mut steps: usize = map_len(block_store);
        let ghost full = descent(block_store@, self.genesis_hash, *tip_hash, from_height, block_store@.dom().len());
        proof {
            assert(chain@.add(full) =~= full);
        }
        loop
            invariant_except_break
                full == chain@.add(descent(block_store@, self.genesis_hash, current, from_height, steps as nat)),
            invariant
                from_height < to_height,
            ensures
                full == chain@,
            decreases steps,
        {
            if steps == 0 || same_digest(&current, &self.genesis_hash) {
                assert(chain@.add(Seq::empty()) =~= chain@);
                break;
            }
            let block: Arc<DataBlock<Tx>> = match map_get(block_store, &current) {
                Some(b) => share(b),
                None => {
                    assert(chain@.add(Seq::empty()) =~= chain@);
                    break;
                },
            };
            let height: u64 = block.envelope.height;
            if height <= from_height {
                assert(chain@.add(Seq::empty()) =~= chain@);
                break;
            }
            let parent: DataBlockHash = block.envelope.parent_hash;
            let ghost prior = chain@;
            chain.push(block);
            if height <= from_height + 1 {
                assert(prior.add(seq![block]) =~= chain@);
                break;
            }
            proof {
                let rest = descent(block_store@, self.genesis_hash, parent, from_height, (steps - 1) as nat);
                assert(prior.add(seq![block].add(rest)) =~= chain@.add(rest));
            }
            steps -= 1;
            current = parent;
        }
        let mut out: Vec<Arc<DataBlock<Tx>>> = Vec::new();
        let mut i: usize = chain.len();
        proof {
            assert(chain@.skip(i as int) =~= Seq::empty());
        }
        while i > 0
            invariant
                i <= chain@.len(),
                out@ == ascending(chain@.skip(i as int), to_height),
            decreases i,
        {
            i -= 1;
            assert(chain@.skip(i as int).drop_first() =~= chain@.skip(i as int + 1));
            if chain[i].envelope.height <= to_height {
                out.push(share(&chain[i]));
            }
        }
        assert(chain@.skip(0) =~= chain@);
        out
    }
}

} // verus!
