//! What each operation of the data plane does, told by its outcome.
use crate::hera::data_actor::{
    by_author, carrying, head_inserted, latency_ms, sampled, step_of, ActorState, DataStep, Emission, Fetch,
};
use crate::hera::data_chain::{
    ascending, count, descent, range_of, spec_data_block_key, without, AdmitTypedResult, ChainsState, DataHeadSnapshot,
};
use crate::hera::types::{DataBlock, DataBlockHash, DataHead};
use crate::types::Transaction;
use std::sync::Arc;
use vstd::prelude::*;

verus! {

/// What admission answers: a block at or below its author's head is a duplicate; above it, the block
/// extends the head if that is its parent. A chain that has started cannot start again, and a block of
/// an author that nobody knows is refused. Any other block waits for the parent that it names.
pub proof fn law_admission_verdicts(s: ChainsState, height: u64, parent: DataBlockHash, author: usize)
    ensures
        ({
            let v = s.verdict(height, parent, author);
            let top = if s.heights.contains_key(author) {
                s.heights[author]
            } else {
                0
            };
            let known = s.heads.contains_key(author);
            let at_head = known && parent == s.heads[author];
            let restart = parent == s.genesis_hash && height == top + 1;
            &&& v is Duplicate <==> height <= top
            &&& v is Extended <==> height > top && at_head
            &&& v is Invalid <==> height > top && !at_head && (!known || restart)
            &&& v is Parked <==> height > top && known && !at_head && !restart
            &&& v is Parked ==> v == AdmitTypedResult::Parked(parent)
            &&& s.head_height(author) == top
        }),
{
}

/// What is decided of an author's chain is what was noted for it, and nothing before that.
pub proof fn law_decided_heights(s: ChainsState, author: usize)
    ensures
        s.committed.contains_key(author) ==> s.committed_height(author) == s.committed[author],
        !s.committed.contains_key(author) ==> s.committed_height(author) == 0,
{
}

/// A block that is a duplicate or invalid changes nothing.
pub proof fn law_refused_block_changes_nothing(
    s: ChainsState,
    hash: DataBlockHash,
    height: u64,
    parent: DataBlockHash,
    author: usize,
    epoch: u64,
)
    requires
        s.verdict(height, parent, author) is Duplicate || s.verdict(height, parent, author) is Invalid,
    ensures
        s.admitted(hash, height, parent, author, epoch) == s,
{
}

/// A block that has to wait is last in the line of its parent, and moves no head. Lines hold 4096
/// children in all: one more lets go of the one that has waited longest, and of no other.
pub proof fn law_waiting_block_is_kept(
    s: ChainsState,
    hash: DataBlockHash,
    height: u64,
    parent: DataBlockHash,
    author: usize,
    epoch: u64,
    other: DataBlockHash,
)
    requires
        s.inv(),
        s.verdict(height, parent, author) is Parked,
        other != parent,
    ensures
        ({
            let e = s.admitted(hash, height, parent, author, epoch);
            let full = s.arrivals.len() == 4096;
            &&& e.heads == s.heads && e.heights == s.heights && e.snapshots == s.snapshots && e.committed == s.committed
            &&& e.genesis_hash == s.genesis_hash
            &&& e.pending.contains_key(parent)
            &&& e.pending[parent].last() == (hash, height)
            &&& !full ==> e.arrivals == s.arrivals.push(parent)
            &&& full ==> e.arrivals == s.arrivals.drop_first().push(parent)
            &&& !(full && s.arrivals[0] == parent) && s.pending.contains_key(parent) ==> e.pending[parent]
                == s.pending[parent].push((hash, height))
            &&& !s.pending.contains_key(parent) ==> e.pending[parent] == seq![(hash, height)]
            &&& full && s.arrivals[0] == parent ==> e.pending[parent] == s.pending[parent].drop_first().push(
                (hash, height),
            )
            &&& !(full && s.arrivals[0] == other) ==> e.pending.contains_key(other) == s.pending.contains_key(other)
            &&& !(full && s.arrivals[0] == other) && s.pending.contains_key(other) ==> e.pending[other]
                == s.pending[other]
            &&& full && s.arrivals[0] == other ==> (e.pending.contains_key(other) <==> s.pending[other].len() > 1)
            &&& full && s.arrivals[0] == other && s.pending[other].len() > 1 ==> e.pending[other]
                == s.pending[other].drop_first()
        }),
{
    let e = s.admitted(hash, height, parent, author, epoch);
    if s.arrivals.len() == 4096 {
        let first = s.arrivals[0];
        assert(s.arrivals.first() == first);
        crate::hera::data_chain::lemma_count_first(s.arrivals, first);
        assert(s.pending.contains_key(first));
        assert(s.pending[first].len() > 0);
        if first == parent {
            assert(e.pending[parent] =~= s.pending[parent].drop_first().push((hash, height)));
        }
    }
    if !s.pending.contains_key(parent) {
        assert(count(s.arrivals, parent) == 0);
        assert(e.pending[parent] =~= seq![(hash, height)]);
    }
}

proof fn lemma_bridge(s: ChainsState, author: usize, epoch: u64)
    requires
        s.heads.contains_key(author),
        s.pending.dom().finite(),
    ensures
        ({
            let e = s.bridged(author, epoch);
            &&& !e.pending.contains_key(e.heads[author])
            &&& e.heads.contains_key(author)
            &&& e.committed == s.committed
            &&& e.genesis_hash == s.genesis_hash
            &&& forall|p: DataBlockHash| #[trigger] e.pending.contains_key(p) ==> s.pending.contains_key(p)
            &&& forall|p: DataBlockHash| #[trigger] e.pending.contains_key(p) ==> e.pending[p] == s.pending[p]
        }),
    decreases s.pending.dom().len(),
{
    let head = s.heads[author];
    if s.pending.contains_key(head) {
        let child = s.pending[head][0];
        let next = s.unparked(head).advanced(author, child.0, child.1, epoch);
        lemma_bridge(next, author, epoch);
    }
}

/// A block that extends its author's head becomes the head, and the head moves on for as long as
/// somebody waits for it: nobody waits for it in the end. Who waits for another parent waits on, or the
/// head has passed that parent.
pub proof fn law_extension_moves_the_head(
    s: ChainsState,
    hash: DataBlockHash,
    height: u64,
    parent: DataBlockHash,
    author: usize,
    epoch: u64,
)
    requires
        s.inv(),
        s.verdict(height, parent, author) is Extended,
    ensures
        ({
            let e = s.admitted(hash, height, parent, author, epoch);
            &&& !e.pending.contains_key(e.heads[author])
            &&& !s.pending.contains_key(hash) ==> e == (ChainsState {
                heads: s.heads.insert(author, hash),
                heights: s.heights.insert(author, height),
                snapshots: s.snapshots.insert(author, DataHeadSnapshot { epoch, height, hash }),
                ..s
            })
            &&& e.committed == s.committed
            &&& e.genesis_hash == s.genesis_hash
            &&& forall|p: DataBlockHash| #[trigger] e.pending.contains_key(p) ==> s.pending.contains_key(p)
            &&& forall|p: DataBlockHash| #[trigger] e.pending.contains_key(p) ==> e.pending[p] == s.pending[p]
        }),
{
    lemma_bridge(s.advanced(author, hash, height, epoch), author, epoch);
}

/// Of the children that wait for a head, the first one to come takes its place, and all of them leave
/// the line; then the same goes for the new head. A head that nobody waits for stays.
pub proof fn law_first_child_takes_the_head(s: ChainsState, author: usize, epoch: u64)
    requires
        s.pending.dom().finite(),
    ensures
        !s.pending.contains_key(s.heads[author]) ==> s.bridged(author, epoch) == s,
        s.pending.contains_key(s.heads[author]) ==> ({
            let head = s.heads[author];
            let child = s.pending[head][0];
            let next = ChainsState {
                heads: s.heads.insert(author, child.0),
                heights: s.heights.insert(author, child.1),
                snapshots: s.snapshots.insert(
                    author,
                    DataHeadSnapshot { epoch, height: child.1, hash: child.0 },
                ),
                pending: s.pending.remove(head),
                arrivals: without(s.arrivals, head),
                ..s
            };
            s.bridged(author, epoch) == next.bridged(author, epoch)
        }),
{
}

/// A list without a digest holds all other ones in their order, and a digest counts as often as it
/// occurs.
pub proof fn law_lists_of_digests(list: Seq<DataBlockHash>, x: DataBlockHash, hash: DataBlockHash)
    ensures
        without(Seq::<DataBlockHash>::empty(), hash) == Seq::<DataBlockHash>::empty(),
        x != hash ==> without(list.push(x), hash) == without(list, hash).push(x),
        without(list.push(hash), hash) == without(list, hash),
        count(Seq::<DataBlockHash>::empty(), hash) == 0,
        count(list.push(hash), hash) == count(list, hash) + 1,
        x != hash ==> count(list.push(x), hash) == count(list, hash),
{
    assert(list.push(x).drop_last() =~= list);
    assert(list.push(hash).drop_last() =~= list);
}

/// A data block is stored under the letter `D` and its digest.
pub proof fn law_storage_key(hash: DataBlockHash, i: int)
    requires
        0 <= i < 32,
    ensures
        spec_data_block_key(hash).len() == 33,
        spec_data_block_key(hash)[0] == 68,
        spec_data_block_key(hash)[i + 1] == hash@[i],
{
}

/// A walk down a chain that takes fewer steps than it may ends where it has to: at the genesis block, at
/// a body that is not here, or at the height it was to stop above.
pub proof fn law_descent_ends_only_where_it_may<Tx>(
    store: Map<DataBlockHash, Arc<DataBlock<Tx>>>,
    genesis: DataBlockHash,
    tip: DataBlockHash,
    from: u64,
    steps: nat,
)
    ensures
        ({
            let down = descent(store, genesis, tip, from, steps);
            let next = if down.len() == 0 {
                tip
            } else {
                down.last().envelope.parent_hash
            };
            &&& down.len() <= steps
            &&& down.len() == steps || next == genesis || !store.contains_key(next) || store[next].envelope.height
                <= from || (down.len() > 0 && down.last().envelope.height == from + 1)
            &&& down.len() > 0 ==> tip != genesis && store.contains_key(tip) && down[0] == store[tip]
                && store[tip].envelope.height > from
        }),
    decreases steps,
{
    let down = descent(store, genesis, tip, from, steps);
    if steps > 0 && tip != genesis && store.contains_key(tip) && store[tip].envelope.height > from + 1 {
        let parent = store[tip].envelope.parent_hash;
        let rest = descent(store, genesis, parent, from, (steps - 1) as nat);
        law_descent_ends_only_where_it_may(store, genesis, parent, from, (steps - 1) as nat);
        assert(down =~= seq![store[tip]].add(rest));
        if rest.len() > 0 {
            assert(down.last() == rest.last());
        }
    }
}

/// A range of a chain is its walk turned round, without what lies above the range, and there is none
/// where the range has no height.
pub proof fn law_range_turns_the_walk_round<Tx>(
    store: Map<DataBlockHash, Arc<DataBlock<Tx>>>,
    genesis: DataBlockHash,
    tip: DataBlockHash,
    from: u64,
    to: u64,
    top: Arc<DataBlock<Tx>>,
    rest: Seq<Arc<DataBlock<Tx>>>,
)
    ensures
        to <= from ==> range_of(store, genesis, tip, from, to).len() == 0,
        to > from ==> range_of(store, genesis, tip, from, to) == ascending(
            descent(store, genesis, tip, from, store.dom().len()),
            to,
        ),
        ascending(Seq::<Arc<DataBlock<Tx>>>::empty(), to).len() == 0,
        top.envelope.height <= to ==> ascending(seq![top].add(rest), to) == ascending(rest, to).push(top),
        top.envelope.height > to ==> ascending(seq![top].add(rest), to) == ascending(rest, to),
{
    let all = seq![top].add(rest);
    assert(all.drop_first() =~= rest);
    assert(all.first() == top);
}

/// A block from a peer that has to wait for its parent, whether it was proposed or answered with, is
/// kept, and the parent is asked for unless it is here: from that peer if nobody was asked yet, from
/// everybody if the last question is old, and not at all while an answer may be under way. Where it is
/// asked for, or was, the question is outstanding afterwards.
pub proof fn law_missing_parent_is_asked_for<Tx>(
    s: ActorState<Tx>,
    block: Arc<DataBlock<Tx>>,
    from: usize,
    now: u64,
    parent: DataBlockHash,
    other: DataBlockHash,
)
    requires
        s.chains.verdict(block.envelope.height, block.envelope.parent_hash, block.sig.signer)
            == AdmitTypedResult::Parked(parent),
        other != parent,
        other != block.hash,
    ensures
        ({
            let (e, asked) = s.answered(block, from, now);
            let here = parent == block.hash || s.store.contains_key(parent);
            let open = s.requests.contains_key(parent);
            &&& s.received(block, from, now) == s.answered(block, from, now)
            &&& e.store == s.store.insert(block.hash, block)
            &&& e.chains.pending.contains_key(parent)
            &&& e.chains.pending[parent].last() == (block.hash, block.envelope.height)
            &&& here ==> asked is None && !e.requests.contains_key(parent)
            &&& !here && !open ==> asked == Some(Fetch::Unicast { target: parent, holder: from })
            &&& !here && open && now < s.requests[parent] + 150_000_000 ==> asked is None
            &&& !here && open && now >= s.requests[parent] + 150_000_000 ==> asked == Some(
                Fetch::Broadcast { target: parent },
            )
            &&& !here ==> e.requests.contains_key(parent)
            &&& asked is Some ==> e.requests[parent] == now
            &&& !here && asked is None ==> e.requests[parent] == s.requests[parent]
            &&& !e.requests.contains_key(block.hash)
            &&& e.requests.contains_key(other) == s.requests.contains_key(other)
            &&& s.requests.contains_key(other) ==> e.requests[other] == s.requests[other]
        }),
{
}

/// A block from a peer that does not have to wait asks for nothing. It is kept, and settles the question
/// for it, if there was one. An answer that comes too late, at or below its author's head, only does the
/// latter.
pub proof fn law_other_blocks_ask_for_nothing<Tx>(s: ActorState<Tx>, block: Arc<DataBlock<Tx>>, from: usize, now: u64)
    requires
        !(s.chains.verdict(block.envelope.height, block.envelope.parent_hash, block.sig.signer) is Parked),
    ensures
        ({
            let (e, asked) = s.received(block, from, now);
            let (f, again) = s.answered(block, from, now);
            let top = if s.chains.heights.contains_key(block.sig.signer) {
                s.chains.heights[block.sig.signer]
            } else {
                0
            };
            &&& asked is None
            &&& again is None
            &&& e.store == s.store.insert(block.hash, block)
            &&& e.requests == s.requests.remove(block.hash)
            &&& f.requests == s.requests.remove(block.hash)
            &&& block.envelope.height > top ==> f == e
            &&& block.envelope.height <= top ==> f.store == s.store && f.chains == s.chains
        }),
{
}

/// A block from a peer asks for admission under its own digest, height, parent, author and epoch, and
/// changes nothing of the node's own chain.
pub proof fn law_received_block_asks_for_admission<Tx>(
    s: ActorState<Tx>,
    block: Arc<DataBlock<Tx>>,
    from: usize,
    now: u64,
)
    ensures
        ({
            let e = s.received(block, from, now).0;
            let t = s.took(block);
            let chains = s.chains.admitted(
                block.hash,
                block.envelope.height,
                block.envelope.parent_hash,
                block.sig.signer,
                block.envelope.epoch,
            );
            &&& e == (ActorState { store: e.store, chains, requests: e.requests, ..s })
            &&& t == (ActorState { store: s.store.insert(block.hash, block), chains, ..s })
        }),
{
}

/// Asking for a block: not for one that is here, from its holder the first time, from everybody once
/// 150 ms have passed since the last time, and not at all before that. The time is noted exactly if the
/// block is asked for, and no other question is touched.
pub proof fn law_asking_for_a_block<Tx>(
    s: ActorState<Tx>,
    target: DataBlockHash,
    holder: usize,
    now: u64,
    other: DataBlockHash,
)
    requires
        other != target,
    ensures
        ({
            let asked = s.fetch(target, holder, now);
            let e = s.fetched(target, holder, now);
            let here = s.store.contains_key(target);
            let open = s.requests.contains_key(target);
            &&& here ==> asked is None && !e.requests.contains_key(target)
            &&& !here && !open ==> asked == Some(Fetch::Unicast { target, holder })
            &&& !here && open && now < s.requests[target] + 150_000_000 ==> asked is None
            &&& !here && open && now >= s.requests[target] + 150_000_000 ==> asked == Some(Fetch::Broadcast { target })
            &&& !here ==> e.requests.contains_key(target)
            &&& asked is Some ==> e.requests[target] == now
            &&& !here && asked is None ==> e.requests[target] == s.requests[target]
            &&& e.requests.contains_key(other) == s.requests.contains_key(other)
            &&& s.requests.contains_key(other) ==> e.requests[other] == s.requests[other]
            &&& e == (ActorState { requests: e.requests, ..s })
        }),
{
}

/// A question is passed on as it is; without one there is nothing to do.
pub proof fn law_questions_are_passed_on<Tx>(fetch: Option<Fetch>)
    ensures
        fetch is None ==> step_of::<Tx>(fetch) == DataStep::<Tx>::Nothing,
        fetch is Some ==> step_of::<Tx>(fetch) == DataStep::<Tx>::Ask(fetch->0),
{
}

/// A peer that asks for a block gets it if it is here, and the genesis block always is.
pub proof fn law_who_asks_is_served<Tx>(s: ActorState<Tx>, target: DataBlockHash)
    ensures
        target == s.genesis.hash ==> s.served(target) == Some(s.genesis),
        target != s.genesis.hash && s.store.contains_key(target) ==> s.served(target) == Some(s.store[target]),
        target != s.genesis.hash && !s.store.contains_key(target) ==> s.served(target) is None,
{
}

/// The lead of a node is how far its own chain reaches above what is decided of it.
pub proof fn law_lead<Tx>(s: ActorState<Tx>)
    ensures
        ({
            let done = if s.chains.committed.contains_key(s.my_id) {
                s.chains.committed[s.my_id]
            } else {
                0
            };
            &&& s.my_height >= done ==> s.lead() == s.my_height - done
            &&& s.my_height < done ==> s.lead() == 0
        }),
{
}

/// Of a list of blocks, those with transactions are handed on, in their order.
pub proof fn law_empty_blocks_are_left_out<Tx>(blocks: Seq<Arc<DataBlock<Tx>>>, block: Arc<DataBlock<Tx>>)
    ensures
        carrying(Seq::<Arc<DataBlock<Tx>>>::empty()).len() == 0,
        block.envelope.payload@.len() > 0 ==> carrying(blocks.push(block)) == carrying(blocks).push(block),
        block.envelope.payload@.len() == 0 ==> carrying(blocks.push(block)) == carrying(blocks),
{
    assert(blocks.push(block).drop_last() =~= blocks);
}

/// One more head makes due what its chain holds above what is decided by then, up to the head, and its
/// author's chain is decided up to it. A head at or below that makes nothing due.
pub proof fn law_one_more_head<Tx>(s: ActorState<Tx>, heads: Seq<DataHead>, head: DataHead, author: usize)
    ensures
        ({
            let more = heads.push(head);
            let done = s.reached(heads, head.author);
            &&& s.due(Seq::<DataHead>::empty()).len() == 0
            &&& s.reached(Seq::<DataHead>::empty(), author) == s.chains.committed_height(author)
            &&& head.height <= done ==> s.due(more) == s.due(heads)
            &&& head.height > done ==> s.due(more) == s.due(heads) + carrying(
                range_of(s.store, s.chains.genesis_hash, head.hash, done, head.height),
            )
            &&& s.reached(more, author) >= s.reached(heads, author)
            &&& author == head.author ==> s.reached(more, author) >= head.height
            &&& author != head.author || head.height <= done ==> s.reached(more, author) == s.reached(heads, author)
            &&& author == head.author && head.height > done ==> s.reached(more, author) == head.height
        }),
{
    assert(heads.push(head).drop_last() =~= heads);
}

/// One more head is handed on after the others. If the sink takes all of it, the head's chain is decided
/// up to the head; if not, the emission halts with what the sink took, and no height changes then or
/// after.
pub proof fn law_emission_goes_head_by_head<Tx>(s: ActorState<Tx>, heads: Seq<DataHead>, head: DataHead, taken: nat)
    ensures
        ({
            let p = s.emission(heads, taken);
            let e = s.emission(heads.push(head), taken);
            let done = p.chains.committed_height(head.author);
            let out = carrying(range_of(s.store, s.chains.genesis_hash, head.hash, done, head.height));
            &&& s.emission(Seq::<DataHead>::empty(), taken) == (Emission {
                blocks: Seq::<Arc<DataBlock<Tx>>>::empty(),
                chains: s.chains,
                halted: false,
            })
            &&& p.halted || head.height <= done ==> e == p
            &&& !p.halted && head.height > done && p.blocks.len() + out.len() <= taken ==> !e.halted && e.blocks
                == p.blocks + out && e.chains == (ChainsState {
                committed: p.chains.committed.insert(head.author, head.height),
                ..p.chains
            })
            &&& !p.halted && head.height > done && p.blocks.len() + out.len() > taken ==> e.halted && e.chains
                == p.chains && e.blocks == p.blocks + out.take(taken - p.blocks.len())
        }),
{
    assert(heads.push(head).drop_last() =~= heads);
}

/// A decided set of heads counts once the sink took all of it. Every fortieth such set sweeps the bodies
/// that are decided, and no other body ever goes; with more than 4096 questions outstanding all of them
/// are forgotten. A set that the sink did not take all of leaves bodies, questions and the count.
pub proof fn law_what_a_decided_set_changes<Tx>(s: ActorState<Tx>, heads: Seq<DataHead>, taken: nat, hash: DataBlockHash)
    requires
        s.commit_events < u64::MAX,
        heads.len() <= usize::MAX,
    ensures
        ({
            let e = s.committed(heads, taken);
            let out = s.emission(by_author(heads), taken);
            let swept = !out.halted && (s.commit_events + 1) % 40 == 0;
            &&& e.chains == out.chains
            &&& e.max_heads_len >= heads.len() && e.max_heads_len >= s.max_heads_len
            &&& e.max_heads_len == heads.len() || e.max_heads_len == s.max_heads_len
            &&& out.halted ==> e.store == s.store && e.requests == s.requests && e.commit_events == s.commit_events
            &&& !out.halted ==> e.commit_events == s.commit_events + 1
            &&& !swept ==> e.store == s.store
            &&& swept ==> (e.store.contains_key(hash) <==> s.store.contains_key(hash) && s.store[hash].envelope.height
                > out.chains.committed_height(s.store[hash].sig.signer))
            &&& e.store.contains_key(hash) ==> e.store[hash] == s.store[hash]
            &&& !out.halted && s.requests.dom().len() > 4096 ==> e.requests.dom() == Set::<DataBlockHash>::empty()
            &&& s.requests.dom().len() <= 4096 ==> e.requests == s.requests
            &&& e == (ActorState {
                chains: e.chains,
                store: e.store,
                requests: e.requests,
                commit_events: e.commit_events,
                max_heads_len: e.max_heads_len,
                ..s
            })
        }),
{
}

/// Whether a head is of this author.
pub open spec fn of_author(author: usize) -> spec_fn(DataHead) -> bool {
    |h: DataHead| h.author == author
}

proof fn lemma_insertion_is_stable(s: Seq<DataHead>, x: DataHead, author: usize)
    requires
        forall|i: int, j: int| 0 <= i < j < s.len() ==> s[i].author <= s[j].author,
    ensures
        head_inserted(s, x).filter(of_author(author)) == s.push(x).filter(of_author(author)),
    decreases s.len(),
{
    reveal_with_fuel(Seq::filter, 3);
    let pred = of_author(author);
    assert(s.push(x).drop_last() =~= s);
    if s.len() > 0 && s.last().author > x.author {
        let short = s.drop_last();
        lemma_insertion_is_stable(short, x, author);
        let a = head_inserted(short, x);
        assert(a.push(s.last()).drop_last() =~= a);
        assert(short.push(x).drop_last() =~= short);
        if s.last().author == author {
            assert(!pred(x));
            assert(short.push(x).filter(pred) == short.filter(pred));
        } else {
            assert(s.filter(pred) == short.filter(pred));
        }
    }
}

/// Heads are handled by author, and those of one author in the order they came in.
pub proof fn law_heads_of_one_author_keep_their_order(heads: Seq<DataHead>, author: usize)
    ensures
        by_author(heads).filter(of_author(author)) == heads.filter(of_author(author)),
    decreases heads.len(),
{
    reveal_with_fuel(Seq::filter, 3);
    if heads.len() > 0 {
        let rest = heads.drop_last();
        let sorted = by_author(rest);
        law_heads_of_one_author_keep_their_order(rest, author);
        crate::hera::data_actor_laws::law_heads_are_ordered(rest);
        lemma_insertion_is_stable(sorted, heads.last(), author);
        assert(sorted.push(heads.last()).drop_last() =~= sorted);
    }
}

/// A latency is sampled for each transaction that says when it was sent, in milliseconds, in the order
/// of the transactions, until there are 8192 samples. No sample is lost.
pub proof fn law_latency_samples<Tx: Transaction>(samples: Seq<u64>, payload: Seq<Arc<Tx>>, now: u128, i: int)
    requires
        0 <= i <= payload.len(),
    ensures
        ({
            let e = sampled(samples, payload, now, i);
            let sent = payload[i].spec_hera_timestamp_ns();
            let timed = sent is Some && 0 < sent->0 <= now;
            &&& samples.len() <= e.len()
            &&& e.take(samples.len() as int) == samples
            &&& e.len() <= samples.len() + (payload.len() - i)
            &&& samples.len() >= 8192 || i == payload.len() ==> e == samples
            &&& samples.len() < 8192 ==> e.len() <= 8192
            &&& samples.len() < 8192 && i < payload.len() && !timed ==> e == sampled(samples, payload, now, i + 1)
            &&& samples.len() < 8192 && i < payload.len() && timed ==> e == sampled(
                samples.push(latency_ms(now, sent->0)),
                payload,
                now,
                i + 1,
            )
        }),
    decreases payload.len() - i,
{
    let e = sampled(samples, payload, now, i);
    if i < payload.len() && samples.len() < 8192 {
        let sent = payload[i].spec_hera_timestamp_ns();
        if sent is Some && 0 < sent->0 <= now {
            let more = samples.push(latency_ms(now, sent->0));
            law_latency_samples(more, payload, now, i + 1);
            assert(e.take(samples.len() as int) =~= e.take(more.len() as int).take(samples.len() as int));
            assert(more.take(samples.len() as int) =~= samples);
        } else {
            law_latency_samples(samples, payload, now, i + 1);
        }
    } else {
        assert(e.take(samples.len() as int) =~= samples);
    }
}

/// A latency is the time that has passed, in whole milliseconds.
pub proof fn law_latency_in_milliseconds(now: u128, sent: u128)
    requires
        sent <= now,
        (now - sent) / 1_000_000 <= u64::MAX,
    ensures
        latency_ms(now, sent) * 1_000_000 <= now - sent < (latency_ms(now, sent) + 1) * 1_000_000,
{
}

} // verus!
