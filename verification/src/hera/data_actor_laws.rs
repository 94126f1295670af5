//! What holds of the data plane across its operations.
use crate::hera::data_actor::{by_author, carrying, head_inserted, ActorState, Fetch, DATA_REQ_RETRY_NS};
use crate::hera::data_chain::{ascending, descent, range_of};
use crate::hera::data_chain_laws::{is_gapless, law_range_is_complete};
use crate::hera::types::{DataBlock, DataBlockHash, DataHead};
use std::sync::Arc;
use vstd::prelude::*;

verus! {

/// An emission lowers no committed height.
pub proof fn law_committed_heights_rise<Tx>(s: ActorState<Tx>, heads: Seq<DataHead>, taken: nat, author: usize)
    ensures
        s.emission(heads, taken).chains.committed_height(author) >= s.chains.committed_height(author),
    decreases heads.len(),
{
    if heads.len() > 0 {
        law_committed_heights_rise(s, heads.drop_last(), taken, author);
    }
}

proof fn lemma_heads_reached<Tx>(s: ActorState<Tx>, heads: Seq<DataHead>, taken: nat, i: int)
    requires
        0 <= i < heads.len(),
        !s.emission(heads, taken).halted,
    ensures
        s.emission(heads, taken).chains.committed_height(heads[i].author) >= heads[i].height,
    decreases heads.len(),
{
    let rest = heads.drop_last();
    if i < rest.len() {
        assert(rest[i] == heads[i]);
        assert(!s.emission(rest, taken).halted);
        lemma_heads_reached(s, rest, taken, i);
    }
}

proof fn lemma_nothing_new<Tx>(t: ActorState<Tx>, heads: Seq<DataHead>, taken: nat)
    requires
        forall|i: int|
            0 <= i < heads.len() ==> (#[trigger] heads[i]).height <= t.chains.committed_height(heads[i].author),
    ensures
        t.emission(heads, taken).blocks.len() == 0,
        t.emission(heads, taken).chains == t.chains,
        !t.emission(heads, taken).halted,
    decreases heads.len(),
{
    if heads.len() > 0 {
        let rest = heads.drop_last();
        assert forall|i: int| 0 <= i < rest.len() implies (#[trigger] rest[i]).height <= t.chains.committed_height(
            rest[i].author,
        ) by {
            assert(rest[i] == heads[i]);
        }
        lemma_nothing_new(t, rest, taken);
        assert(heads[heads.len() - 1] == heads.last());
    }
}

/// What has been handed on is not handed on again: the same set of heads, decided twice, leads to
/// nothing the second time.
pub proof fn law_heads_are_emitted_once<Tx>(s: ActorState<Tx>, heads: Seq<DataHead>, taken: nat, again: nat)
    requires
        !s.emission(by_author(heads), taken).halted,
    ensures
        ({
            let e = s.committed(heads, taken).emission(by_author(heads), again);
            &&& e.blocks.len() == 0
            &&& !e.halted
        }),
{
    let sorted = by_author(heads);
    let t = s.committed(heads, taken);
    assert forall|i: int| 0 <= i < sorted.len() implies (#[trigger] sorted[i]).height <= t.chains.committed_height(
        sorted[i].author,
    ) by {
        lemma_heads_reached(s, sorted, taken, i);
    }
    lemma_nothing_new(t, sorted, again);
}

/// What the sink took is the beginning of what was due, and all of it unless the emission halted.
/// Where it did not halt, each author's chain is decided up to the highest head.
pub proof fn law_sink_takes_what_is_due<Tx>(s: ActorState<Tx>, heads: Seq<DataHead>, taken: nat)
    ensures
        ({
            let e = s.emission(heads, taken);
            let due = s.due(heads);
            &&& e.blocks.len() <= due.len()
            &&& e.blocks == due.take(e.blocks.len() as int)
            &&& e.blocks.len() <= taken
            &&& e.halted <==> due.len() > taken
            &&& e.halted ==> e.blocks.len() == taken
            &&& !e.halted ==> e.blocks == due
            &&& !e.halted ==> forall|a: usize| #[trigger] e.chains.committed_height(a) == s.reached(heads, a)
        }),
    decreases heads.len(),
{
    let e = s.emission(heads, taken);
    let due = s.due(heads);
    if heads.len() > 0 {
        let rest = heads.drop_last();
        let head = heads.last();
        law_sink_takes_what_is_due(s, rest, taken);
        let p = s.emission(rest, taken);
        let before = s.due(rest);
        if !p.halted {
            assert(p.chains.committed_height(head.author) == s.reached(rest, head.author));
            assert forall|a: usize| !e.halted implies #[trigger] e.chains.committed_height(a) == s.reached(heads, a) by {
                assert(p.chains.committed_height(a) == s.reached(rest, a));
            }
        }
        assert(due.take(p.blocks.len() as int) =~= before.take(p.blocks.len() as int));
        assert(e.blocks =~= due.take(e.blocks.len() as int));
        if !e.halted {
            assert(due.take(due.len() as int) =~= due);
        }
    } else {
        assert(due.take(0) =~= e.blocks);
    }
}

/// In the store every block is of its parent's author, and higher than its parent.
pub open spec fn grows_upwards<Tx>(store: Map<DataBlockHash, Arc<DataBlock<Tx>>>) -> bool {
    forall|h: DataBlockHash| #[trigger]
        store.contains_key(h) && store.contains_key(store[h].envelope.parent_hash) ==> {
            let parent = store[store[h].envelope.parent_hash];
            parent.sig.signer == store[h].sig.signer && parent.envelope.height < store[h].envelope.height
        }
}

/// The blocks are of one author, each higher than the one before, above `from` and up to `to`.
spec fn climbing<Tx>(blocks: Seq<Arc<DataBlock<Tx>>>, author: usize, from: u64, to: u64) -> bool {
    &&& forall|i: int| 0 <= i < blocks.len() ==> (#[trigger] blocks[i]).sig.signer == author && from
        < blocks[i].envelope.height <= to
    &&& forall|i: int, j: int| 0 <= i < j < blocks.len() ==> (#[trigger] blocks[i]).envelope.height < (
    #[trigger] blocks[j]).envelope.height
}

proof fn lemma_descent_falls<Tx>(
    store: Map<DataBlockHash, Arc<DataBlock<Tx>>>,
    genesis: DataBlockHash,
    tip: DataBlockHash,
    from: u64,
    steps: nat,
)
    requires
        grows_upwards(store),
    ensures
        ({
            let down = descent(store, genesis, tip, from, steps);
            &&& forall|i: int| 0 <= i < down.len() ==> (#[trigger] down[i]).sig.signer == store[tip].sig.signer
                && from < down[i].envelope.height <= store[tip].envelope.height
            &&& forall|i: int, j: int| 0 <= i < j < down.len() ==> (#[trigger] down[i]).envelope.height > (
            #[trigger] down[j]).envelope.height
        }),
    decreases steps,
{
    if steps > 0 && tip != genesis && store.contains_key(tip) && store[tip].envelope.height > from + 1 {
        let parent = store[tip].envelope.parent_hash;
        let rest = descent(store, genesis, parent, from, (steps - 1) as nat);
        let down = descent(store, genesis, tip, from, steps);
        lemma_descent_falls(store, genesis, parent, from, (steps - 1) as nat);
        assert(down =~= seq![store[tip]].add(rest));
        assert forall|i: int| 0 <= i < down.len() implies (#[trigger] down[i]).sig.signer == store[tip].sig.signer && from
            < down[i].envelope.height <= store[tip].envelope.height by {
            if i > 0 {
                assert(down[i] == rest[i - 1]);
            }
        }
        assert forall|i: int, j: int| 0 <= i < j < down.len() implies (#[trigger] down[i]).envelope.height > (
        #[trigger] down[j]).envelope.height by {
            assert(down[j] == rest[j - 1]);
            if i > 0 {
                assert(down[i] == rest[i - 1]);
            }
        }
    }
}

proof fn lemma_ascending_climbs<Tx>(down: Seq<Arc<DataBlock<Tx>>>, author: usize, from: u64, to: u64)
    requires
        forall|i: int| 0 <= i < down.len() ==> (#[trigger] down[i]).sig.signer == author && from
            < down[i].envelope.height,
        forall|i: int, j: int| 0 <= i < j < down.len() ==> (#[trigger] down[i]).envelope.height > (
        #[trigger] down[j]).envelope.height,
    ensures
        climbing(ascending(down, to), author, from, to),
        down.len() > 0 ==> forall|i: int|
            0 <= i < ascending(down, to).len() ==> (#[trigger] ascending(down, to)[i]).envelope.height
                <= down[0].envelope.height,
    decreases down.len(),
{
    if down.len() > 0 {
        let below = down.drop_first();
        let rest = ascending(below, to);
        assert forall|i: int, j: int| 0 <= i < j < below.len() implies (#[trigger] below[i]).envelope.height > (
        #[trigger] below[j]).envelope.height by {
            assert(down[i + 1].envelope.height > down[j + 1].envelope.height);
        }
        lemma_ascending_climbs(below, author, from, to);
        if below.len() > 0 {
            assert(down[0].envelope.height > down[1].envelope.height);
        }
        let up = ascending(down, to);
        assert forall|i: int| 0 <= i < rest.len() implies (#[trigger] rest[i]).envelope.height < down[0].envelope.height by {
            assert(rest[i].envelope.height <= below[0].envelope.height);
        }
        assert(forall|i: int| 0 <= i < rest.len() ==> #[trigger] up[i] == rest[i]);
    }
}

proof fn lemma_carrying_climbs<Tx>(blocks: Seq<Arc<DataBlock<Tx>>>, author: usize, from: u64, to: u64)
    requires
        climbing(blocks, author, from, to),
    ensures
        climbing(carrying(blocks), author, from, to),
        blocks.len() > 0 ==> forall|i: int|
            0 <= i < carrying(blocks).len() ==> (#[trigger] carrying(blocks)[i]).envelope.height
                <= blocks.last().envelope.height,
    decreases blocks.len(),
{
    if blocks.len() > 0 {
        let rest = blocks.drop_last();
        lemma_carrying_climbs(rest, author, from, to);
        let kept = carrying(rest);
        assert forall|i: int| 0 <= i < kept.len() implies (#[trigger] kept[i]).envelope.height
            < blocks.last().envelope.height by {
            if rest.len() > 0 {
                assert(kept[i].envelope.height <= rest.last().envelope.height);
                assert(blocks[rest.len() - 1].envelope.height < blocks[blocks.len() - 1].envelope.height);
            }
        }
        let all = carrying(blocks);
        assert(forall|i: int| 0 <= i < kept.len() ==> #[trigger] all[i] == kept[i]);
    }
}

/// Every block that is due for a decided set of heads is due once, and the blocks of one author are
/// due in the order of their heights: above what was decided of the author's chain before, and not
/// above what is decided after. So no later set of heads leads to any of them again.
pub proof fn law_blocks_are_due_once_in_height_order<Tx>(s: ActorState<Tx>, heads: Seq<DataHead>)
    requires
        grows_upwards(s.store),
        forall|i: int|
            0 <= i < heads.len() && s.store.contains_key((#[trigger] heads[i]).hash)
                ==> s.store[heads[i].hash].sig.signer == heads[i].author,
    ensures
        ({
            let due = s.due(heads);
            &&& forall|i: int|
                0 <= i < due.len() ==> s.chains.committed_height((#[trigger] due[i]).sig.signer)
                    < due[i].envelope.height <= s.reached(heads, due[i].sig.signer)
            &&& forall|i: int, j: int|
                0 <= i < j < due.len() && (#[trigger] due[i]).sig.signer == (#[trigger] due[j]).sig.signer
                    ==> due[i].envelope.height < due[j].envelope.height
        }),
        forall|a: usize| s.reached(heads, a) >= s.chains.committed_height(a),
    decreases heads.len(),
{
    if heads.len() > 0 {
        let rest = heads.drop_last();
        let head = heads.last();
        assert forall|i: int| 0 <= i < rest.len() && s.store.contains_key((#[trigger] rest[i]).hash) implies s.store[rest[i].hash].sig.signer
            == rest[i].author by {
            assert(rest[i] == heads[i]);
        }
        law_blocks_are_due_once_in_height_order(s, rest);
        assert(heads[heads.len() - 1] == head);
        let from = s.reached(rest, head.author);
        let before = s.due(rest);
        let due = s.due(heads);
        if head.height > from {
            let down = descent(s.store, s.chains.genesis_hash, head.hash, from, s.store.dom().len());
            lemma_descent_falls(s.store, s.chains.genesis_hash, head.hash, from, s.store.dom().len());
            assert forall|i: int| 0 <= i < down.len() implies (#[trigger] down[i]).sig.signer == head.author && from
                < down[i].envelope.height by {
                assert(s.store.contains_key(head.hash));
            }
            lemma_ascending_climbs(down, head.author, from, head.height);
            let range = range_of(s.store, s.chains.genesis_hash, head.hash, from, head.height);
            lemma_carrying_climbs(range, head.author, from, head.height);
            let new = carrying(range);
            assert(due == before.add(new));
            assert forall|i: int| 0 <= i < due.len() implies s.chains.committed_height((#[trigger] due[i]).sig.signer)
                < due[i].envelope.height <= s.reached(heads, due[i].sig.signer) by {
                if i < before.len() {
                    assert(due[i] == before[i]);
                } else {
                    assert(due[i] == new[i - before.len()]);
                }
            }
            assert forall|i: int, j: int| 0 <= i < j < due.len() && (#[trigger] due[i]).sig.signer == (
            #[trigger] due[j]).sig.signer implies due[i].envelope.height < due[j].envelope.height by {
                if i >= before.len() {
                    assert(due[i] == new[i - before.len()]);
                    assert(due[j] == new[j - before.len()]);
                } else if j >= before.len() {
                    assert(due[i] == before[i]);
                    assert(due[j] == new[j - before.len()]);
                } else {
                    assert(due[i] == before[i]);
                    assert(due[j] == before[j]);
                }
            }
        }
    }
}

/// A node whose chain is decided to its tip may propose, whatever the cap, as long as that is at
/// least 1.
pub proof fn law_lead_cap_releases<Tx>(s: ActorState<Tx>)
    requires
        s.max_chain_lead >= 1,
        s.chains.committed_height(s.my_id) >= s.my_height,
    ensures
        s.lead() < s.max_chain_lead,
{
}

/// A block that is not here is asked for once from its holder, not again while the answer may be
/// under way, and from everybody after that.
pub proof fn law_fetch_escalates<Tx>(
    s: ActorState<Tx>,
    target: DataBlockHash,
    holder: usize,
    first: u64,
    later: u64,
)
    requires
        !s.store.contains_key(target),
        !s.requests.contains_key(target),
        first <= later,
    ensures
        s.fetch(target, holder, first) == Some(Fetch::Unicast { target, holder }),
        later - first < DATA_REQ_RETRY_NS ==> s.fetched(target, holder, first).fetch(target, holder, later) is None,
        later - first >= DATA_REQ_RETRY_NS ==> s.fetched(target, holder, first).fetch(target, holder, later) == Some(
            Fetch::Broadcast { target },
        ),
{
}

proof fn lemma_head_inserted(s: Seq<DataHead>, x: DataHead)
    requires
        forall|i: int, j: int| 0 <= i < j < s.len() ==> s[i].author <= s[j].author,
    ensures
        forall|i: int, j: int|
            0 <= i < j < head_inserted(s, x).len() ==> head_inserted(s, x)[i].author <= head_inserted(s, x)[j].author,
        head_inserted(s, x).to_multiset() == s.to_multiset().insert(x),
        head_inserted(s, x).len() == s.len() + 1,
        forall|i: int|
            0 <= i < head_inserted(s, x).len() ==> (#[trigger] head_inserted(s, x)[i]).author <= x.author || (s.len() > 0
                && head_inserted(s, x)[i].author <= s.last().author),
    decreases s.len(),
{
    broadcast use vstd::seq_lib::group_to_multiset_ensures;

    if s.len() > 0 && s.last().author > x.author {
        lemma_head_inserted(s.drop_last(), x);
        let a = head_inserted(s.drop_last(), x);
        let r = head_inserted(s, x);
        assert(s =~= s.drop_last().push(s.last()));
        assert forall|i: int| 0 <= i < a.len() implies (#[trigger] a[i]).author <= s.last().author by {
            if !(a[i].author <= x.author) {
                assert(a[i].author <= s.drop_last().last().author);
                assert(s.drop_last().last() == s[s.len() - 2]);
            }
        }
        assert forall|i: int, j: int| 0 <= i < j < r.len() implies r[i].author <= r[j].author by {
            if j < a.len() {
                assert(r[i] == a[i] && r[j] == a[j]);
            } else {
                assert(r[i] == a[i]);
            }
        }
        assert(s.to_multiset().insert(x) =~= s.drop_last().to_multiset().insert(x).insert(s.last()));
    }
}

/// Heads are handled in increasing order of their authors, each once, whatever order they came in.
pub proof fn law_heads_are_ordered(heads: Seq<DataHead>)
    ensures
        forall|i: int, j: int| 0 <= i < j < by_author(heads).len() ==> by_author(heads)[i].author <= by_author(heads)[j].author,
        by_author(heads).to_multiset() == heads.to_multiset(),
        by_author(heads).len() == heads.len(),
    decreases heads.len(),
{
    broadcast use vstd::seq_lib::group_to_multiset_ensures;

    if heads.len() > 0 {
        law_heads_are_ordered(heads.drop_last());
        lemma_head_inserted(by_author(heads.drop_last()), heads.last());
        assert(heads =~= heads.drop_last().push(heads.last()));
    }
}

/// No two heads are of one author.
pub open spec fn of_distinct_authors(heads: Seq<DataHead>) -> bool {
    forall|i: int, j: int| 0 <= i < j < heads.len() ==> (#[trigger] heads[i]).author != (#[trigger] heads[j]).author
}

/// Each head is of a greater author than the one before.
pub open spec fn by_rising_author(heads: Seq<DataHead>) -> bool {
    forall|i: int, j: int| 0 <= i < j < heads.len() ==> (#[trigger] heads[i]).author < (#[trigger] heads[j]).author
}

proof fn lemma_inserted_rises(s: Seq<DataHead>, x: DataHead)
    requires
        by_rising_author(s),
        forall|i: int| 0 <= i < s.len() ==> (#[trigger] s[i]).author != x.author,
    ensures
        by_rising_author(head_inserted(s, x)),
        forall|h: DataHead| #[trigger] head_inserted(s, x).contains(h) <==> s.contains(h) || h == x,
    decreases s.len(),
{
    let r = head_inserted(s, x);
    if s.len() > 0 && s.last().author > x.author {
        let rest = s.drop_last();
        assert forall|i: int| 0 <= i < rest.len() implies (#[trigger] rest[i]).author != x.author by {
            assert(rest[i] == s[i]);
        }
        lemma_inserted_rises(rest, x);
        let a = head_inserted(rest, x);
        assert forall|h: DataHead| #[trigger] r.contains(h) <==> s.contains(h) || h == x by {
            assert(a.contains(h) <==> rest.contains(h) || h == x);
            lemma_push_contains(a, s.last(), h);
            lemma_push_contains(rest, s.last(), h);
            assert(rest.push(s.last()) =~= s);
        }
        assert forall|i: int, j: int| 0 <= i < j < r.len() implies (#[trigger] r[i]).author < (#[trigger] r[j]).author by {
            assert(r[i] == a[i]);
            if j < a.len() {
                assert(r[j] == a[j]);
            } else {
                assert(a.contains(a[i]));
                if rest.contains(a[i]) {
                    let k = choose|k: int| 0 <= k < rest.len() && rest[k] == a[i];
                    assert(s[k].author < s[s.len() - 1].author);
                }
            }
        }
    } else {
        assert forall|h: DataHead| #[trigger] r.contains(h) <==> s.contains(h) || h == x by {
            lemma_push_contains(s, x, h);
        }
        assert forall|i: int, j: int| 0 <= i < j < r.len() implies (#[trigger] r[i]).author < (#[trigger] r[j]).author by {
            if j == s.len() {
                assert(r[i] == s[i]);
                assert(s[s.len() - 1].author != x.author);
                assert(i == s.len() - 1 || s[i].author < s[s.len() - 1].author);
            } else {
                assert(r[i] == s[i] && r[j] == s[j]);
            }
        }
    }
}

proof fn lemma_push_contains(s: Seq<DataHead>, x: DataHead, h: DataHead)
    ensures
        s.push(x).contains(h) <==> s.contains(h) || h == x,
{
    let r = s.push(x);
    if s.contains(h) {
        let i = choose|i: int| 0 <= i < s.len() && s[i] == h;
        assert(r[i] == h);
    }
    if h == x {
        assert(r[s.len() as int] == h);
    }
    if r.contains(h) {
        let i = choose|i: int| 0 <= i < r.len() && r[i] == h;
        if i < s.len() {
            assert(s[i] == h);
        }
    }
}

/// Heads of distinct authors are handled in strictly increasing order of their authors, all of them
/// and no other.
pub proof fn law_distinct_heads_rise(heads: Seq<DataHead>)
    requires
        of_distinct_authors(heads),
    ensures
        by_rising_author(by_author(heads)),
        forall|h: DataHead| #[trigger] by_author(heads).contains(h) <==> heads.contains(h),
    decreases heads.len(),
{
    if heads.len() > 0 {
        let rest = heads.drop_last();
        let x = heads.last();
        assert forall|i: int, j: int| 0 <= i < j < rest.len() implies (#[trigger] rest[i]).author != (
        #[trigger] rest[j]).author by {
            assert(heads[i].author != heads[j].author);
        }
        law_distinct_heads_rise(rest);
        let s = by_author(rest);
        assert forall|i: int| 0 <= i < s.len() implies (#[trigger] s[i]).author != x.author by {
            assert(s.contains(s[i]));
            assert(rest.contains(s[i]));
            let k = choose|k: int| 0 <= k < rest.len() && rest[k] == s[i];
            assert(heads[k].author != heads[heads.len() - 1].author);
        }
        lemma_inserted_rises(s, x);
        assert forall|h: DataHead| #[trigger] by_author(heads).contains(h) <==> heads.contains(h) by {
            lemma_push_contains(rest, x, h);
            assert(rest.push(x) =~= heads);
        }
    }
}

/// The blocks of each head's chain that carry transactions, from what is decided of it up to the head,
/// head after head.
pub open spec fn decided_blocks<Tx>(s: ActorState<Tx>, heads: Seq<DataHead>) -> Seq<Arc<DataBlock<Tx>>>
    decreases heads.len(),
{
    if heads.len() == 0 {
        Seq::empty()
    } else {
        let h = heads.last();
        decided_blocks(s, heads.drop_last()).add(carrying(decided_range(s, h)))
    }
}

/// The blocks of a head's chain from what is decided of it up to the head, lowest first.
pub open spec fn decided_range<Tx>(s: ActorState<Tx>, h: DataHead) -> Seq<Arc<DataBlock<Tx>>> {
    range_of(s.store, s.chains.genesis_hash, h.hash, s.chains.committed_height(h.author), h.height)
}

proof fn lemma_reached<Tx>(s: ActorState<Tx>, heads: Seq<DataHead>, a: usize)
    requires
        by_rising_author(heads),
    ensures
        (forall|i: int| 0 <= i < heads.len() ==> (#[trigger] heads[i]).author != a) ==> s.reached(heads, a)
            == s.chains.committed_height(a),
        forall|i: int|
            0 <= i < heads.len() && (#[trigger] heads[i]).author == a ==> s.reached(heads, a) == (if heads[i].height
                > s.chains.committed_height(a) {
                heads[i].height
            } else {
                s.chains.committed_height(a)
            }),
    decreases heads.len(),
{
    if heads.len() > 0 {
        let rest = heads.drop_last();
        assert forall|i: int, j: int| 0 <= i < j < rest.len() implies (#[trigger] rest[i]).author < (
        #[trigger] rest[j]).author by {
            assert(heads[i].author < heads[j].author);
        }
        lemma_reached(s, rest, a);
        let last = heads[heads.len() - 1];
        assert(last == heads.last());
        if last.author == a {
            assert forall|i: int| 0 <= i < rest.len() implies (#[trigger] rest[i]).author != a by {
                assert(heads[i].author < heads[heads.len() - 1].author);
            }
        } else {
            assert forall|i: int| 0 <= i < heads.len() && (#[trigger] heads[i]).author == a implies s.reached(heads, a) == (
            if heads[i].height > s.chains.committed_height(a) {
                heads[i].height
            } else {
                s.chains.committed_height(a)
            }) by {
                assert(rest[i] == heads[i]);
            }
            if forall|i: int| 0 <= i < heads.len() ==> (#[trigger] heads[i]).author != a {
                assert forall|i: int| 0 <= i < rest.len() implies (#[trigger] rest[i]).author != a by {
                    assert(heads[i].author != a);
                }
            }
        }
    }
}

proof fn lemma_due_is_decided<Tx>(s: ActorState<Tx>, heads: Seq<DataHead>)
    requires
        by_rising_author(heads),
    ensures
        s.due(heads) == decided_blocks(s, heads),
    decreases heads.len(),
{
    if heads.len() > 0 {
        let rest = heads.drop_last();
        let h = heads.last();
        assert forall|i: int, j: int| 0 <= i < j < rest.len() implies (#[trigger] rest[i]).author < (
        #[trigger] rest[j]).author by {
            assert(heads[i].author < heads[j].author);
        }
        lemma_due_is_decided(s, rest);
        assert forall|i: int| 0 <= i < rest.len() implies (#[trigger] rest[i]).author != h.author by {
            assert(heads[i].author < heads[heads.len() - 1].author);
        }
        lemma_reached(s, rest, h.author);
        if h.height <= s.chains.committed_height(h.author) {
            assert(decided_range(s, h).len() == 0);
            assert(carrying(decided_range(s, h)) =~= Seq::empty());
            assert(decided_blocks(s, rest).add(Seq::empty()) =~= decided_blocks(s, rest));
        }
    }
}

/// A decided set of heads of distinct authors hands on, in increasing order of the authors, what is
/// not decided yet of each chain. Where no body is missing that is one block of each height up to the
/// head, lowest first, without those that carry no transaction. After that each of these chains is
/// decided up to its head, no other one has moved, and the same heads lead to nothing any more.
pub proof fn law_commit_hands_on_what_was_decided<Tx>(s: ActorState<Tx>, heads: Seq<DataHead>)
    requires
        of_distinct_authors(heads),
        s.store.dom().finite(),
        forall|i: int|
            0 <= i < heads.len() && (#[trigger] heads[i]).height > s.chains.committed_height(heads[i].author)
                ==> s.store.contains_key(heads[i].hash),
        forall|i: int|
            0 <= i < heads.len() && (#[trigger] heads[i]).height > s.chains.committed_height(heads[i].author)
                ==> s.store[heads[i].hash].envelope.height == heads[i].height,
        forall|i: int|
            0 <= i < heads.len() && (#[trigger] heads[i]).height > s.chains.committed_height(heads[i].author)
                ==> s.store[heads[i].hash].sig.signer == heads[i].author,
        forall|i: int|
            0 <= i < heads.len() && (#[trigger] heads[i]).height > s.chains.committed_height(heads[i].author)
                ==> is_gapless(
                s.store,
                s.chains.genesis_hash,
                heads[i].author,
                s.chains.committed_height(heads[i].author),
            ),
    ensures
        ({
            let sorted = by_author(heads);
            let due = s.due(sorted);
            let e = s.committed(heads, due.len());
            &&& by_rising_author(sorted)
            &&& due == decided_blocks(s, sorted)
            &&& !s.emission(sorted, due.len()).halted
            &&& s.emission(sorted, due.len()).blocks == due
            &&& e.due(sorted).len() == 0
            &&& forall|i: int|
                0 <= i < heads.len() && (#[trigger] heads[i]).height > s.chains.committed_height(heads[i].author)
                    ==> decided_range(s, heads[i]).len() == heads[i].height - s.chains.committed_height(heads[i].author)
            &&& forall|i: int, k: int|
                0 <= i < heads.len() && 0 <= k < decided_range(s, heads[i]).len() ==> (#[trigger] decided_range(
                    s,
                    heads[i],
                )[k]).envelope.height == s.chains.committed_height(heads[i].author) + 1 + k
            &&& forall|i: int|
                0 <= i < heads.len() ==> e.chains.committed_height((#[trigger] heads[i]).author) == (if heads[i].height
                    > s.chains.committed_height(heads[i].author) {
                    heads[i].height
                } else {
                    s.chains.committed_height(heads[i].author)
                })
            &&& forall|a: usize|
                (forall|i: int| 0 <= i < heads.len() ==> (#[trigger] heads[i]).author != a)
                    ==> #[trigger] e.chains.committed_height(a) == s.chains.committed_height(a)
        }),
{
    let sorted = by_author(heads);
    let due = s.due(sorted);
    let e = s.committed(heads, due.len());
    law_distinct_heads_rise(heads);
    lemma_due_is_decided(s, sorted);
    law_sink_takes_what_is_due(s, sorted, due.len());
    law_heads_are_emitted_once(s, heads, due.len(), 0);
    law_sink_takes_what_is_due(e, sorted, 0);
    assert forall|i: int| 0 <= i < heads.len() && (#[trigger] heads[i]).height > s.chains.committed_height(
        heads[i].author,
    ) implies decided_range(s, heads[i]).len() == heads[i].height - s.chains.committed_height(heads[i].author) by {
        law_range_is_complete(
            s.store,
            s.chains.genesis_hash,
            heads[i].hash,
            s.chains.committed_height(heads[i].author),
            heads[i].height,
        );
    }
    assert forall|i: int, k: int| 0 <= i < heads.len() && 0 <= k < decided_range(s, heads[i]).len() implies (
    #[trigger] decided_range(s, heads[i])[k]).envelope.height == s.chains.committed_height(heads[i].author) + 1 + k by {
        if heads[i].height > s.chains.committed_height(heads[i].author) {
            law_range_is_complete(
                s.store,
                s.chains.genesis_hash,
                heads[i].hash,
                s.chains.committed_height(heads[i].author),
                heads[i].height,
            );
        }
    }
    assert forall|i: int| 0 <= i < heads.len() implies e.chains.committed_height((#[trigger] heads[i]).author) == (
    if heads[i].height > s.chains.committed_height(heads[i].author) {
        heads[i].height
    } else {
        s.chains.committed_height(heads[i].author)
    }) by {
        lemma_reached(s, sorted, heads[i].author);
        assert(heads.contains(heads[i]));
        assert(sorted.contains(heads[i]));
        let k = choose|k: int| 0 <= k < sorted.len() && sorted[k] == heads[i];
        assert(sorted[k].author == heads[i].author);
        assert(s.emission(sorted, due.len()).chains.committed_height(heads[i].author) == s.reached(
            sorted,
            heads[i].author,
        ));
    }
    assert forall|a: usize| (forall|i: int| 0 <= i < heads.len() ==> (#[trigger] heads[i]).author != a) implies
        #[trigger] e.chains.committed_height(a) == s.chains.committed_height(a) by {
        lemma_reached(s, sorted, a);
        assert forall|k: int| 0 <= k < sorted.len() implies (#[trigger] sorted[k]).author != a by {
            assert(sorted.contains(sorted[k]));
            assert(heads.contains(sorted[k]));
            let i = choose|i: int| 0 <= i < heads.len() && heads[i] == sorted[k];
            assert(heads[i].author != a);
        }
        assert(s.emission(sorted, due.len()).chains.committed_height(a) == s.reached(sorted, a));
    }
}

} // verus!
