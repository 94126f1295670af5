//! The data plane of a node: its own chain of data blocks, the blocks of all others, and the
//! emission of what has been decided.
use crate::digest::{same_digest, Digest};
use crate::fnv_map::{map_contains, map_get, map_insert, map_keys, map_len, map_remove};
use crate::hera::data_chain::{
    range_of, AdmitTypedResult, ChainsState, DataHeadSnapshot, MultiAuthorDataChainState,
};
use crate::hera::types::{
    DataBlock, DataBlockEnvelope, DataBlockHash, DataBlockSig, DataHead, HeraMsg,
};
use crate::types::{share, Batch, Transaction};
use fnv::FnvHashMap;
use std::sync::Arc;
use vstd::prelude::*;

verus! {

/// How many undecided blocks of its own a node may be ahead, unless it is told otherwise.
pub const DEFAULT_MAX_CHAIN_LEAD: u64 = 64;

/// The bodies are swept once in this many commits.
pub const GC_EVERY_N_COMMITS: u64 = 40;

/// A fetch that has had no answer for this long, in nanoseconds, is sent again.
pub const DATA_REQ_RETRY_NS: u64 = 150_000_000;

/// With more outstanding fetches than this, all of them are forgotten.
pub const MAX_REQ: usize = 4096;

/// The epoch of the first data blocks.
pub const INITIAL_DATA_EPOCH: u64 = 1;

/// As many latency samples are kept between two reports.
pub const MAX_LATENCY_SAMPLES: usize = 8192;

/// A decided set of heads, with the round that decided it.
pub struct CommitEmit {
    pub heads: Vec<DataHead>,
    pub sig_round: u64,
}

/// What a batch of the node's own batcher leads to.
pub enum ProposePlan<Tx> {
    /// Nothing to propose: the batcher starts on this round.
    Prime(u64),
    /// Too far ahead: the batch is dropped, and the batcher starts on this round.
    Drop(u64),
    /// An envelope to hash and sign.
    Sign(DataBlockEnvelope<Tx>),
}

/// A signed block of the node's own.
pub struct SelfProposed<Tx> {
    /// The block to send to every peer.
    pub block: Arc<DataBlock<Tx>>,
    /// The round that the batcher starts on.
    pub prime_round: u64,
}

/// How a missing block is asked for.
pub enum Fetch {
    /// From a node that has it.
    Unicast { target: DataBlockHash, holder: usize },
    /// From everybody.
    Broadcast { target: DataBlockHash },
}

/// What a message of the data plane leads to.
pub enum DataStep<Tx> {
    /// Nothing.
    Nothing,
    /// A missing block is asked for.
    Ask(Fetch),
    /// A block goes to a peer.
    Respond { to: usize, block: Arc<DataBlock<Tx>> },
}

/// The step of an optional fetch.
pub open spec fn step_of<Tx>(fetch: Option<Fetch>) -> DataStep<Tx> {
    match fetch {
        Some(f) => DataStep::Ask(f),
        None => DataStep::Nothing,
    }
}

/// What there is to know of the data plane.
#[verifier::ext_equal]
pub struct ActorState<Tx> {
    pub my_id: usize,
    pub epoch: u64,
    pub n_minus_t: usize,
    pub can_propose: bool,
    pub acks: usize,
    pub genesis: Arc<DataBlock<Tx>>,
    pub store: Map<DataBlockHash, Arc<DataBlock<Tx>>>,
    pub chains: ChainsState,
    pub requests: Map<DataBlockHash, u64>,
    pub my_height: u64,
    pub my_last_hash: Option<DataBlockHash>,
    pub commit_events: u64,
    pub max_chain_lead: u64,
    pub max_heads_len: usize,
}

/// What a decided set of heads leads to.
pub struct Emission<Tx> {
    /// The blocks whose transactions the sink took, in order.
    pub blocks: Seq<Arc<DataBlock<Tx>>>,
    pub chains: ChainsState,
    /// The sink did not take all batches.
    pub halted: bool,
}

/// The heads in increasing order of their authors; those of one author keep their order.
pub open spec fn by_author(heads: Seq<DataHead>) -> Seq<DataHead>
    decreases heads.len(),
{
    if heads.len() == 0 {
        heads
    } else {
        head_inserted(by_author(heads.drop_last()), heads.last())
    }
}

/// A head inserted before the first one of a greater author.
pub open spec fn head_inserted(heads: Seq<DataHead>, x: DataHead) -> Seq<DataHead>
    decreases heads.len(),
{
    if heads.len() > 0 && heads.last().author > x.author {
        head_inserted(heads.drop_last(), x).push(heads.last())
    } else {
        heads.push(x)
    }
}

/// The blocks that carry transactions.
pub open spec fn carrying<Tx>(blocks: Seq<Arc<DataBlock<Tx>>>) -> Seq<Arc<DataBlock<Tx>>>
    decreases blocks.len(),
{
    if blocks.len() == 0 {
        blocks
    } else if blocks.last().envelope.payload@.len() > 0 {
        carrying(blocks.drop_last()).push(blocks.last())
    } else {
        carrying(blocks.drop_last())
    }
}

impl<Tx> ActorState<Tx> {
    /// The chains are sound and start at this genesis block, and where the next block has to wait,
    /// receipts are missing.
    pub open spec fn inv(self) -> bool {
        &&& self.chains.inv()
        &&& self.chains.genesis_hash == self.genesis.hash
        &&& !self.can_propose ==> self.acks + 1 < self.n_minus_t
    }

    /// How far the node's own chain is ahead of what is decided of it.
    pub open spec fn lead(self) -> int {
        let c = self.chains.committed_height(self.my_id);
        if self.my_height > c {
            self.my_height - c
        } else {
            0
        }
    }

    /// The body is stored and admission is asked for.
    pub open spec fn took(self, block: Arc<DataBlock<Tx>>) -> Self {
        ActorState {
            store: self.store.insert(block.hash, block),
            chains: self.chains.admitted(
                block.hash,
                block.envelope.height,
                block.envelope.parent_hash,
                block.sig.signer,
                block.envelope.epoch,
            ),
            ..self
        }
    }

    /// The parent that the block has to wait for.
    pub open spec fn missing_parent(self, block: Arc<DataBlock<Tx>>) -> Option<DataBlockHash> {
        match self.chains.verdict(block.envelope.height, block.envelope.parent_hash, block.sig.signer) {
            AdmitTypedResult::Parked(p) => Some(p),
            _ => None,
        }
    }

    /// What asking for a block at time `now` leads to.
    pub open spec fn fetch(self, target: DataBlockHash, holder: usize, now: u64) -> Option<Fetch> {
        if self.store.contains_key(target) {
            None
        } else if !self.requests.contains_key(target) {
            Some(Fetch::Unicast { target, holder })
        } else if now < self.requests[target] + DATA_REQ_RETRY_NS {
            None
        } else {
            Some(Fetch::Broadcast { target })
        }
    }

    /// The state after a block has been asked for at time `now`.
    pub open spec fn fetched(self, target: DataBlockHash, holder: usize, now: u64) -> Self {
        if self.store.contains_key(target) {
            ActorState { requests: self.requests.remove(target), ..self }
        } else if self.fetch(target, holder, now) is Some {
            ActorState { requests: self.requests.insert(target, now), ..self }
        } else {
            self
        }
    }

    /// The outstanding fetch of the block is settled.
    pub open spec fn settled(self, hash: DataBlockHash) -> Self {
        ActorState { requests: self.requests.remove(hash), ..self }
    }

    /// The effect of a block that a peer sent: it is taken, and its parent is asked for where it
    /// is missing.
    pub open spec fn received(self, block: Arc<DataBlock<Tx>>, from: usize, now: u64) -> (Self, Option<Fetch>) {
        let s = self.settled(block.hash);
        match s.missing_parent(block) {
            Some(p) => (s.took(block).fetched(p, from, now), s.took(block).fetch(p, from, now)),
            None => (s.took(block), None),
        }
    }

    /// The effect of a block that a peer answered with: like any block that a peer sent, if it is
    /// above its author's head.
    pub open spec fn answered(self, block: Arc<DataBlock<Tx>>, from: usize, now: u64) -> (Self, Option<Fetch>) {
        if block.envelope.height <= self.chains.head_height(block.sig.signer) {
            (self.settled(block.hash), None)
        } else {
            self.received(block, from, now)
        }
    }

    /// The block that a peer who asks for it gets.
    pub open spec fn served(self, target: DataBlockHash) -> Option<Arc<DataBlock<Tx>>> {
        if target == self.genesis.hash {
            Some(self.genesis)
        } else if self.store.contains_key(target) {
            Some(self.store[target])
        } else {
            None
        }
    }

    /// The bodies that are not decided yet.
    pub open spec fn undecided(self) -> Map<DataBlockHash, Arc<DataBlock<Tx>>> {
        self.store.restrict(
            Set::new(
                |h: DataBlockHash|
                    self.store.contains_key(h) && self.store[h].envelope.height > self.chains.committed_height(
                        self.store[h].sig.signer,
                    ),
            ),
        )
    }

    /// What the heads lead to, one after the other, where the sink takes `taken` batches and no
    /// more. A head at or below what is decided of its author's chain leads to nothing; one that the
    /// sink did not take all batches of is not decided, nor is any head after it.
    pub open spec fn emission(self, heads: Seq<DataHead>, taken: nat) -> Emission<Tx>
        decreases heads.len(),
    {
        if heads.len() == 0 {
            Emission { blocks: Seq::empty(), chains: self.chains, halted: false }
        } else {
            let p = self.emission(heads.drop_last(), taken);
            let head = heads.last();
            let from = p.chains.committed_height(head.author);
            if p.halted || head.height <= from {
                p
            } else {
                let out = carrying(range_of(self.store, self.chains.genesis_hash, head.hash, from, head.height));
                if p.blocks.len() + out.len() > taken {
                    Emission { blocks: p.blocks.add(out.take(taken - p.blocks.len())), halted: true, ..p }
                } else {
                    Emission {
                        blocks: p.blocks.add(out),
                        chains: ChainsState {
                            committed: p.chains.committed.insert(head.author, head.height),
                            ..p.chains
                        },
                        halted: false,
                    }
                }
            }
        }
    }

    /// The blocks that a decided set of heads leads to where the sink takes them all.
    pub open spec fn due(self, heads: Seq<DataHead>) -> Seq<Arc<DataBlock<Tx>>>
        decreases heads.len(),
    {
        if heads.len() == 0 {
            Seq::empty()
        } else {
            let rest = heads.drop_last();
            let head = heads.last();
            let from = self.reached(rest, head.author);
            if head.height <= from {
                self.due(rest)
            } else {
                self.due(rest).add(
                    carrying(range_of(self.store, self.chains.genesis_hash, head.hash, from, head.height)),
                )
            }
        }
    }

    /// How far an author's chain is decided once all of the heads are.
    pub open spec fn reached(self, heads: Seq<DataHead>, author: usize) -> u64
        decreases heads.len(),
    {
        if heads.len() == 0 {
            self.chains.committed_height(author)
        } else {
            let before = self.reached(heads.drop_last(), author);
            if heads.last().author == author && heads.last().height > before {
                heads.last().height
            } else {
                before
            }
        }
    }

    /// The state after a decided set of heads, of whose batches the sink took `taken`.
    pub open spec fn committed(self, heads: Seq<DataHead>, taken: nat) -> Self {
        let e = self.emission(by_author(heads), taken);
        let noted = ActorState {
            chains: e.chains,
            max_heads_len: if heads.len() > self.max_heads_len {
                heads.len() as usize
            } else {
                self.max_heads_len
            },
            ..self
        };
        if e.halted {
            noted
        } else {
            let counted = ActorState { commit_events: (self.commit_events + 1) as u64, ..noted };
            ActorState {
                store: if counted.commit_events % GC_EVERY_N_COMMITS == 0 {
                    counted.undecided()
                } else {
                    counted.store
                },
                requests: if counted.requests.dom().len() > MAX_REQ {
                    Map::empty()
                } else {
                    counted.requests
                },
                ..counted
            }
        }
    }
}

/// The data plane of a node.
#[verifier::reject_recursive_types(Tx)]
pub struct HeraDataActor<Tx> {
    my_id: usize,
    current_epoch: u64,
    n_minus_t: usize,
    can_propose: bool,
    acks_for_current: usize,
    genesis: Arc<DataBlock<Tx>>,
    block_store: FnvHashMap<DataBlockHash, Arc<DataBlock<Tx>>>,
    multi_data_chain: MultiAuthorDataChainState,
    pending_data_requests: FnvHashMap<DataBlockHash, u64>,
    my_height: u64,
    my_last_hash: Option<DataBlockHash>,
    commit_event_count: u64,
    max_chain_lead: u64,
    max_committed_heads_len: usize,
}

impl<Tx> HeraDataActor<Tx> {
    pub closed spec fn view(&self) -> ActorState<Tx> {
        ActorState {
            my_id: self.my_id,
            epoch: self.current_epoch,
            n_minus_t: self.n_minus_t,
            can_propose: self.can_propose,
            acks: self.acks_for_current,
            genesis: self.genesis,
            store: self.block_store@,
            chains: self.multi_data_chain@,
            requests: self.pending_data_requests@,
            my_height: self.my_height,
            my_last_hash: self.my_last_hash,
            commit_events: self.commit_event_count,
            max_chain_lead: self.max_chain_lead,
            max_heads_len: self.max_committed_heads_len,
        }
    }

    pub open spec fn wf(&self) -> bool {
        self@.inv()
    }

    /// A data plane in which every chain stands at the genesis block. A node never waits for more
    /// receipts than there are nodes that work.
    pub fn new(
        my_id: usize,
        all_ids: &[usize],
        genesis: Arc<DataBlock<Tx>>,
        num_nodes: usize,
        num_faults: usize,
        max_chain_lead: u64,
    ) -> (r: Self)
        ensures
            r.wf(),
            r@.my_id == my_id,
            r@.epoch == INITIAL_DATA_EPOCH,
            r@.n_minus_t == (if num_nodes >= num_faults {
                num_nodes - num_faults
            } else {
                0
            }),
            r@.can_propose,
            r@.acks == 0,
            r@.genesis == genesis,
            r@.store == Map::<DataBlockHash, Arc<DataBlock<Tx>>>::empty(),
            r@.chains.genesis_hash == genesis.hash,
            r@.chains.heads == all_ids@.to_set().mk_map(|a: usize| genesis.hash),
            r@.chains.heights == all_ids@.to_set().mk_map(|a: usize| 0u64),
            r@.chains.committed == all_ids@.to_set().mk_map(|a: usize| 0u64),
            r@.chains.snapshots == all_ids@.to_set().mk_map(
                |a: usize| (DataHeadSnapshot { epoch: 0, height: 0, hash: genesis.hash }),
            ),
            r@.chains.pending == Map::<DataBlockHash, Seq<(DataBlockHash, u64)>>::empty(),
            r@.chains.arrivals == Seq::<DataBlockHash>::empty(),
            r@.requests == Map::<DataBlockHash, u64>::empty(),
            r@.my_height == 0,
            r@.my_last_hash is None,
            r@.commit_events == 0,
            r@.max_chain_lead == max_chain_lead,
            r@.max_heads_len == 0,
    {
        HeraDataActor {
            my_id,
            current_epoch: INITIAL_DATA_EPOCH,
            n_minus_t: if num_nodes >= num_faults {
                num_nodes - num_faults
            } else {
                0
            },
            can_propose: true,
            acks_for_current: 0,
            multi_data_chain: MultiAuthorDataChainState::new(all_ids, genesis.hash),
            genesis,
            block_store: FnvHashMap::default(),
            pending_data_requests: FnvHashMap::default(),
            my_height: 0,
            my_last_hash: None,
            commit_event_count: 0,
            max_chain_lead,
            max_committed_heads_len: 0,
        }
    }

    /// Whether the previous block has reached enough nodes for the next one.
    pub fn can_propose(&self) -> (r: bool)
        ensures
            r == self@.can_propose,
    {
        self.can_propose
    }

    /// The height of the node's own chain.
    pub fn my_height(&self) -> (r: u64)
        ensures
            r == self@.my_height,
    {
        self.my_height
    }

    /// The chains, for reading.
    pub fn chains(&self) -> (r: &MultiAuthorDataChainState)
        ensures
            r@ == self@.chains,
    {
        &self.multi_data_chain
    }

    /// Whether the body is held.
    pub fn holds(&self, hash: &DataBlockHash) -> (r: bool)
        ensures
            r == self@.store.contains_key(*hash),
    {
        map_contains(&self.block_store, hash)
    }

    /// The largest number of heads in one decided set so far.
    pub fn max_committed_heads_len(&self) -> (r: usize)
        ensures
            r == self@.max_heads_len,
    {
        self.max_committed_heads_len
    }

    /// The round that the batcher starts on.
    pub fn prime_round(&self) -> (r: u64)
        requires
            self@.my_height < u64::MAX,
        ensures
            r == self@.my_height + 1,
    {
        self.my_height + 1
    }

    /// The node's own batcher sealed a batch: an empty one only starts the batcher anew; one that
    /// comes when the chain is too far ahead is dropped and starts the batcher anew, so that the node
    /// goes on once its chain is decided; any other is to be signed.
    pub fn on_self_propose(&self, batch: Batch<Tx>) -> (r: ProposePlan<Tx>)
        requires
            self.wf(),
            self@.my_height < u64::MAX,
        ensures
            match r {
                ProposePlan::Prime(round) => batch.payload@.len() == 0 && round == self@.my_height + 1,
                ProposePlan::Drop(round) => batch.payload@.len() > 0 && self@.lead() >= self@.max_chain_lead && round
                    == self@.my_height + 1,
                ProposePlan::Sign(e) => {
                    &&& batch.payload@.len() > 0
                    &&& self@.lead() < self@.max_chain_lead
                    &&& e.epoch == self@.epoch
                    &&& e.height == self@.my_height + 1
                    &&& e.payload == batch.payload
                    &&& e.parent_hash == (match self@.my_last_hash {
                        Some(h) => h,
                        None => self@.genesis.hash,
                    })
                },
            },
    {
        if batch.payload.len() == 0 {
            return ProposePlan::Prime(self.my_height + 1);
        }
        let committed: u64 = self.multi_data_chain.committed_height(self.my_id);
        let lead: u64 = if self.my_height > committed {
            self.my_height - committed
        } else {
            0
        };
        if lead >= self.max_chain_lead {
            return ProposePlan::Drop(self.my_height + 1);
        }
        let parent_hash: DataBlockHash = match self.my_last_hash {
            Some(h) => h,
            None => self.genesis.hash,
        };
        ProposePlan::Sign(
            DataBlockEnvelope {
                epoch: self.current_epoch,
                height: self.my_height + 1,
                payload: batch.payload,
                parent_hash,
            },
        )
    }

    /// The envelope has been hashed and signed: the node's own chain grows by the block.
    pub fn on_self_signed(
        &mut self,
        envelope: DataBlockEnvelope<Tx>,
        hash: DataBlockHash,
        raw: Vec<u8>,
    ) -> (r: SelfProposed<Tx>)
        requires
            old(self).wf(),
            envelope.height < u64::MAX,
        ensures
            final(self).wf(),
            final(self)@ == (ActorState {
                my_height: envelope.height,
                my_last_hash: Some(hash),
                ..old(self)@
            }),
            r.prime_round == envelope.height + 1,
            *r.block == (DataBlock {
                envelope,
                sig: DataBlockSig { raw, signer: old(self)@.my_id },
                hash,
            }),
    {
        let height: u64 = envelope.height;
        self.my_height = height;
        self.my_last_hash = Some(hash);
        let block = Arc::new(DataBlock { envelope, sig: DataBlockSig { raw, signer: self.my_id }, hash });
        SelfProposed { block, prime_round: height + 1 }
    }

    /// The block has been sent to the peers: the next one has to wait for receipts, unless the
    /// node's own is enough, and the block is taken like any other.
    pub fn on_self_sent(&mut self, block: &Arc<DataBlock<Tx>>)
        requires
            old(self).wf(),
        ensures
            final(self).wf(),
            final(self)@ == (ActorState {
                acks: 0,
                can_propose: old(self)@.n_minus_t <= 1,
                ..old(self)@
            }).took(*block),
    {
        self.acks_for_current = 0;
        self.can_propose = self.n_minus_t <= 1;
        self.admit_block(block);
    }

    /// A peer answered for the node's own block of this height, `ok` if with a receipt. Only receipts
    /// for the latest block count, and only while the next one has to wait. `true` once enough nodes,
    /// this one included, have the block: then the next one may be proposed.
    pub fn on_receipt(&mut self, height: u64, ok: bool) -> (r: bool)
        requires
            old(self).wf(),
        ensures
            final(self).wf(),
            ({
                let counts = ok && height == old(self)@.my_height && !old(self)@.can_propose;
                &&& r == (counts && old(self)@.acks + 2 >= old(self)@.n_minus_t)
                &&& final(self)@ == (if counts {
                    ActorState { acks: (old(self)@.acks + 1) as usize, can_propose: r, ..old(self)@ }
                } else {
                    old(self)@
                })
            }),
    {
        if !ok || height != self.my_height || self.can_propose {
            return false;
        }
        self.acks_for_current += 1;
        if self.acks_for_current + 1 >= self.n_minus_t {
            self.can_propose = true;
            true
        } else {
            false
        }
    }

    /// Stores a body and asks for its admission. Returns the parent it has to wait for.
    fn admit_block(&mut self, block: &Arc<DataBlock<Tx>>) -> (r: Option<DataBlockHash>)
        requires
            old(self).wf(),
        ensures
            final(self).wf(),
            final(self)@ == old(self)@.took(*block),
            r == old(self)@.missing_parent(*block),
    {
        map_insert(&mut self.block_store, block.hash, share(block));
        let verdict = self.multi_data_chain.admit_metadata(
            block.hash,
            block.envelope.height,
            block.envelope.parent_hash,
            block.sig.signer,
            block.envelope.epoch,
        );
        proof {
            lemma_admitted_genesis(
                old(self)@.chains,
                block.hash,
                block.envelope.height,
                block.envelope.parent_hash,
                block.sig.signer,
                block.envelope.epoch,
            );
        }
        match verdict {
            AdmitTypedResult::Parked(p) => Some(p),
            _ => None,
        }
    }

    /// A peer proposed a block, whose signature has been verified. A missing parent is asked for
    /// from the sender.
    pub fn on_data_propose(&mut self, block: &Arc<DataBlock<Tx>>, sender: usize, now: u64) -> (r: Option<Fetch>)
        requires
            old(self).wf(),
        ensures
            final(self).wf(),
            (final(self)@, r) == old(self)@.received(*block, sender, now),
    {
        map_remove(&mut self.pending_data_requests, &block.hash);
        match self.admit_block(block) {
            Some(p) => self.request_data(p, sender, now),
            None => None,
        }
    }

    /// A peer asks for a block: the genesis block, or a body that is held.
    pub fn on_data_request(&self, target_hash: &DataBlockHash) -> (r: Option<Arc<DataBlock<Tx>>>)
        requires
            self.wf(),
        ensures
            r == self@.served(*target_hash),
    {
        if same_digest(target_hash, &self.genesis.hash) {
            return Some(share(&self.genesis));
        }
        match map_get(&self.block_store, target_hash) {
            Some(b) => Some(share(b)),
            None => None,
        }
    }

    /// A peer answered with a block, whose signature has been verified. One that is not above its
    /// author's head is dropped; a missing parent is asked for from the responder.
    pub fn on_data_response(&mut self, block: &Arc<DataBlock<Tx>>, responder: usize, now: u64) -> (r: Option<Fetch>)
        requires
            old(self).wf(),
        ensures
            final(self).wf(),
            (final(self)@, r) == old(self)@.answered(*block, responder, now),
    {
        map_remove(&mut self.pending_data_requests, &block.hash);
        if block.envelope.height <= self.multi_data_chain.head_height(block.sig.signer) {
            return None;
        }
        match self.admit_block(block) {
            Some(p) => self.request_data(p, responder, now),
            None => None,
        }
    }

    /// Asks for a missing block: first from a node that has it, then, without an answer for long
    /// enough, from everybody.
    pub fn request_data(&mut self, target_hash: DataBlockHash, holder: usize, now: u64) -> (r: Option<Fetch>)
        requires
            old(self).wf(),
        ensures
            final(self).wf(),
            r == old(self)@.fetch(target_hash, holder, now),
            final(self)@ == old(self)@.fetched(target_hash, holder, now),
    {
        if map_contains(&self.block_store, &target_hash) {
            map_remove(&mut self.pending_data_requests, &target_hash);
            return None;
        }
        let action = match map_get(&self.pending_data_requests, &target_hash) {
            Some(last) => {
                if *last > now || now - *last < DATA_REQ_RETRY_NS {
                    return None;
                }
                Fetch::Broadcast { target: target_hash }
            },
            None => Fetch::Unicast { target: target_hash, holder },
        };
        map_insert(&mut self.pending_data_requests, target_hash, now);
        Some(action)
    }

    /// A message of the data plane came, its signature verified. Others have no place here.
    pub fn dispatch_data(&mut self, msg: HeraMsg<Tx>, now: u64) -> (r: DataStep<Tx>)
        requires
            old(self).wf(),
        ensures
            final(self).wf(),
            ({
                let s = old(self)@;
                match msg {
                    HeraMsg::DataPropose { block, sender } => {
                        let e = s.received(block, sender, now);
                        final(self)@ == e.0 && r == step_of::<Tx>(e.1)
                    },
                    HeraMsg::DataRequest { target_hash, source } => final(self)@ == s && r == (match s.served(
                        target_hash,
                    ) {
                        Some(block) => DataStep::Respond { to: source, block },
                        None => DataStep::Nothing,
                    }),
                    HeraMsg::DataResponse { block, responder } => {
                        let e = s.answered(block, responder, now);
                        final(self)@ == e.0 && r == step_of::<Tx>(e.1)
                    },
                    _ => final(self)@ == s && r is Nothing,
                }
            }),
    {
        match msg {
            HeraMsg::DataPropose { block, sender } => match self.on_data_propose(&block, sender, now) {
                Some(f) => DataStep::Ask(f),
                None => DataStep::Nothing,
            },
            HeraMsg::DataRequest { target_hash, source } => match self.on_data_request(&target_hash) {
                Some(block) => DataStep::Respond { to: source, block },
                None => DataStep::Nothing,
            },
            HeraMsg::DataResponse { block, responder } => match self.on_data_response(&block, responder, now) {
                Some(f) => DataStep::Ask(f),
                None => DataStep::Nothing,
            },
            _ => DataStep::Nothing,
        }
    }

    /// Drops the bodies that are decided.
    fn gc_block_store(&mut self)
        requires
            old(self).wf(),
        ensures
            final(self).wf(),
            final(self)@ == (ActorState { store: old(self)@.undecided(), ..old(self)@ }),
    {
        let ghost start = self@;
        let keys = map_keys(&self.block_store);
        let mut i: usize = 0;
        while i < keys.len()
            invariant
                i <= keys@.len(),
                keys@.no_duplicates(),
                keys@.to_set() == start.store.dom(),
                self.wf(),
                self@ == (ActorState { store: self@.store, ..start }),
                self@.store.submap_of(start.store),
                forall|j: int| 0 <= j < keys@.len() ==> (self@.store.contains_key(#[trigger] keys@[j]) <==> j >= i
                    || start.store[keys@[j]].envelope.height > start.chains.committed_height(
                    start.store[keys@[j]].sig.signer,
                )),
            decreases keys@.len() - i,
        {
            let k: Digest = keys[i];
            assert(keys@.to_set().contains(k));
            let stale: bool = match map_get(&self.block_store, &k) {
                Some(b) => b.envelope.height <= self.multi_data_chain.committed_height(b.sig.signer),
                None => false,
            };
            if stale {
                map_remove(&mut self.block_store, &k);
            }
            i += 1;
        }
        proof {
            let kept = start.undecided();
            assert forall|h: DataBlockHash| self@.store.contains_key(h) <==> #[trigger] kept.contains_key(h) by {
                if start.store.contains_key(h) {
                    assert(keys@.to_set().contains(h));
                    let j = choose|j: int| 0 <= j < keys@.len() && keys@[j] == h;
                    assert(keys@[j] == h);
                }
            }
            assert(self@.store =~= kept);
        }
    }

    /// The blocks to hand on for a decided set of heads, lowest author first and in the order of
    /// their heights. Blocks without transactions are left out.
    pub fn blocks_due(&self, commit: &CommitEmit) -> (r: Vec<Arc<DataBlock<Tx>>>)
        requires
            self.wf(),
        ensures
            r@ == self@.due(by_author(commit.heads@)),
    {
        let heads = sorted_heads(&commit.heads);
        let mut reached: FnvHashMap<usize, u64> = FnvHashMap::default();
        let mut out: Vec<Arc<DataBlock<Tx>>> = Vec::new();
        let mut i: usize = 0;
        assert(heads@.take(0) =~= Seq::empty());
        while i < heads.len()
            invariant
                i <= heads@.len(),
                heads@ == by_author(commit.heads@),
                self.wf(),
                out@ == self@.due(heads@.take(i as int)),
                forall|a: usize| #[trigger] self@.reached(heads@.take(i as int), a) == (if reached@.contains_key(a) {
                    reached@[a]
                } else {
                    self@.chains.committed_height(a)
                }),
            decreases heads@.len() - i,
        {
            let head: DataHead = heads[i];
            let ghost next = heads@.take(i as int + 1);
            assert(next.drop_last() =~= heads@.take(i as int));
            assert(next.last() == head);
            let from: u64 = match map_get(&reached, &head.author) {
                Some(h) => *h,
                None => self.multi_data_chain.committed_height(head.author),
            };
            assert(from == self@.reached(heads@.take(i as int), head.author));
            let ghost before = reached@;
            if head.height > from {
                let blocks = self.multi_data_chain.walk_range(&self.block_store, &head.hash, from, head.height);
                let mut carried = carrying_blocks(&blocks);
                out.append(&mut carried);
                map_insert(&mut reached, head.author, head.height);
            }
            assert forall|a: usize| #[trigger] self@.reached(next, a) == (if reached@.contains_key(a) {
                reached@[a]
            } else {
                self@.chains.committed_height(a)
            }) by {
                assert(self@.reached(heads@.take(i as int), a) == (if before.contains_key(a) {
                    before[a]
                } else {
                    self@.chains.committed_height(a)
                }));
            }
            i += 1;
        }
        assert(heads@.take(i as int) =~= heads@);
        out
    }

    /// A set of heads is decided, and of the blocks due for it the sink has taken the first `taken`.
    /// The heads are decided up to the first one whose blocks were not all taken. Returns whether all
    /// of them were.
    pub fn on_commit_emit(&mut self, commit: &CommitEmit, taken: usize) -> (r: bool)
        requires
            old(self).wf(),
            old(self)@.commit_events < u64::MAX,
        ensures
            final(self).wf(),
            r == !old(self)@.emission(by_author(commit.heads@), taken as nat).halted,
            final(self)@ == old(self)@.committed(commit.heads@, taken as nat),
    {
        let ghost start = self@;
        if commit.heads.len() > self.max_committed_heads_len {
            self.max_committed_heads_len = commit.heads.len();
        }
        let heads = sorted_heads(&commit.heads);
        let mut left: usize = taken;
        let mut i: usize = 0;
        assert(heads@.take(0) =~= Seq::empty());
        while i < heads.len()
            invariant
                i <= heads@.len(),
                heads@ == by_author(commit.heads@),
                self.wf(),
                !start.emission(heads@.take(i as int), taken as nat).halted,
                left + start.emission(heads@.take(i as int), taken as nat).blocks.len() == taken,
                self@ == (ActorState {
                    chains: start.emission(heads@.take(i as int), taken as nat).chains,
                    max_heads_len: self@.max_heads_len,
                    ..start
                }),
                self@.max_heads_len == (if commit.heads@.len() > start.max_heads_len {
                    commit.heads@.len() as usize
                } else {
                    start.max_heads_len
                }),
                self@.chains.genesis_hash == start.chains.genesis_hash,
                start == old(self)@,
            decreases heads@.len() - i,
        {
            let head: DataHead = heads[i];
            assert(heads@.take(i as int + 1).drop_last() =~= heads@.take(i as int));
            let from: u64 = self.multi_data_chain.committed_height(head.author);
            if head.height > from {
                let blocks = self.multi_data_chain.walk_range(&self.block_store, &head.hash, from, head.height);
                let carried: usize = carrying_blocks(&blocks).len();
                if carried > left {
                    proof {
                        lemma_halted_stays(start, heads@, i as int + 1, taken as nat);
                    }
                    return false;
                }
                left -= carried;
                self.multi_data_chain.set_committed_height(head.author, head.height);
            }
            i += 1;
        }
        assert(heads@.take(i as int) =~= heads@);
        self.commit_event_count += 1;
        if self.commit_event_count % GC_EVERY_N_COMMITS == 0 {
            self.gc_block_store();
        }
        if map_len(&self.pending_data_requests) > MAX_REQ {
            self.pending_data_requests = FnvHashMap::default();
        }
        true
    }
}

proof fn lemma_admitted_genesis(
    s: ChainsState,
    hash: DataBlockHash,
    height: u64,
    parent: DataBlockHash,
    author: usize,
    epoch: u64,
)
    ensures
        s.admitted(hash, height, parent, author, epoch).genesis_hash == s.genesis_hash,
{
    lemma_bridged_genesis(s.advanced(author, hash, height, epoch), author, epoch);
}

proof fn lemma_bridged_genesis(s: ChainsState, author: usize, epoch: u64)
    ensures
        s.bridged(author, epoch).genesis_hash == s.genesis_hash,
    decreases s.pending.dom().len(),
{
    let head = s.heads[author];
    if s.pending.dom().finite() && s.pending.contains_key(head) {
        let child = s.pending[head][0];
        lemma_bridged_genesis(
            s.unparked(head).advanced(author, child.0, child.1, epoch),
            author,
            epoch,
        );
    }
}

proof fn lemma_halted_stays<Tx>(s: ActorState<Tx>, heads: Seq<DataHead>, i: int, taken: nat)
    requires
        0 <= i <= heads.len(),
        s.emission(heads.take(i), taken).halted,
    ensures
        s.emission(heads, taken) == s.emission(heads.take(i), taken),
    decreases heads.len() - i,
{
    if i < heads.len() {
        assert(heads.take(i + 1).drop_last() =~= heads.take(i));
        lemma_halted_stays(s, heads, i + 1, taken);
    } else {
        assert(heads.take(i) =~= heads);
    }
}

/// The blocks that carry transactions.
fn carrying_blocks<Tx>(blocks: &Vec<Arc<DataBlock<Tx>>>) -> (r: Vec<Arc<DataBlock<Tx>>>)
    ensures
        r@ == carrying(blocks@),
{
    let mut out: Vec<Arc<DataBlock<Tx>>> = Vec::new();
    let mut i: usize = 0;
    assert(blocks@.take(0) =~= Seq::empty());
    while i < blocks.len()
        invariant
            i <= blocks@.len(),
            out@ == carrying(blocks@.take(i as int)),
        decreases blocks@.len() - i,
    {
        assert(blocks@.take(i as int + 1).drop_last() =~= blocks@.take(i as int));
        if blocks[i].envelope.payload.len() > 0 {
            out.push(share(&blocks[i]));
        }
        i += 1;
    }
    assert(blocks@.take(i as int) =~= blocks@);
    out
}

/// The heads in increasing order of their authors.
fn sorted_heads(heads: &Vec<DataHead>) -> (r: Vec<DataHead>)
    ensures
        r@ == by_author(heads@),
{
    let mut out: Vec<DataHead> = Vec::new();
    let mut i: usize = 0;
    assert(heads@.take(0) =~= Seq::empty());
    while i < heads.len()
        invariant
            i <= heads@.len(),
            out@ == by_author(heads@.take(i as int)),
        decreases heads@.len() - i,
    {
        let x: DataHead = heads[i];
        let ghost before = out@;
        assert(heads@.take(i as int + 1).drop_last() =~= heads@.take(i as int));
        let mut at: usize = out.len();
        assert(before.take(at as int) =~= before);
        assert(before.skip(at as int) =~= Seq::empty());
        assert(head_inserted(before, x).add(Seq::empty()) =~= head_inserted(before, x));
        while at > 0 && out[at - 1].author > x.author
            invariant
                at <= out@.len(),
                out@ == before,
                head_inserted(before, x) == head_inserted(before.take(at as int), x).add(before.skip(at as int)),
            decreases at,
        {
            proof {
                let t = before.take(at as int);
                assert(t.drop_last() =~= before.take(at as int - 1));
                let a = head_inserted(t.drop_last(), x);
                assert(a.push(t.last()).add(before.skip(at as int)) =~= a.add(before.skip(at as int - 1)));
            }
            at -= 1;
        }
        out.insert(at, x);
        assert(out@ =~= before.take(at as int).push(x).add(before.skip(at as int)));
        i += 1;
    }
    assert(heads@.take(i as int) =~= heads@);
    out
}

/// The samples after the transactions from place `i` on have been looked at: one for each that
/// says when it was sent, unless there are enough.
pub open spec fn sampled<Tx: Transaction>(
    samples: Seq<u64>,
    payload: Seq<Arc<Tx>>,
    now_ns: u128,
    i: int,
) -> Seq<u64>
    decreases payload.len() - i,
{
    if i < 0 || i >= payload.len() || samples.len() >= MAX_LATENCY_SAMPLES {
        samples
    } else {
        sampled(
            match payload[i].spec_hera_timestamp_ns() {
                Some(sent) if sent > 0 && now_ns >= sent => samples.push(latency_ms(now_ns, sent)),
                _ => samples,
            },
            payload,
            now_ns,
            i + 1,
        )
    }
}

/// The milliseconds from `sent` to `now_ns`, as far as 64 bits hold them.
pub open spec fn latency_ms(now_ns: u128, sent: u128) -> u64 {
    (((now_ns - sent) / 1_000_000) % 0x1_0000_0000_0000_0000) as u64
}

/// Samples the latencies of a decided block's transactions.
pub fn sample_latencies<Tx: Transaction>(samples: &mut Vec<u64>, payload: &Vec<Arc<Tx>>, now_ns: u128)
    ensures
        final(samples)@ == sampled(old(samples)@, payload@, now_ns, 0),
{
    let mut i: usize = 0;
    while i < payload.len() && samples.len() < MAX_LATENCY_SAMPLES
        invariant
            i <= payload@.len(),
            sampled(samples@, payload@, now_ns, i as int) == sampled(old(samples)@, payload@, now_ns, 0),
        decreases payload@.len() - i,
    {
        if let Some(sent) = payload[i].hera_timestamp_ns() {
            if sent > 0 && now_ns >= sent {
                let ms: u128 = (now_ns - sent) / 1_000_000;
                samples.push((ms % 0x1_0000_0000_0000_0000) as u64);
            }
        }
        i += 1;
    }
}

} // verus!
