//! What holds of the data chains across their operations.
use crate::hera::data_chain::{ascending, descent, lemma_count_first, range_of, ChainsState, MAX_PENDING};
use crate::hera::types::{DataBlock, DataBlockHash};
use std::sync::Arc;
use vstd::prelude::*;

verus! {

proof fn lemma_bridge_touches_one_author(s: ChainsState, author: usize, epoch: u64, other: usize)
    requires
        other != author,
    ensures
        s.bridged(author, epoch).heads.contains_key(other) == s.heads.contains_key(other),
        s.bridged(author, epoch).heads[other] == s.heads[other],
        s.bridged(author, epoch).heights.contains_key(other) == s.heights.contains_key(other),
        s.bridged(author, epoch).heights[other] == s.heights[other],
        s.bridged(author, epoch).snapshots[other] == s.snapshots[other],
        s.bridged(author, epoch).committed == s.committed,
    decreases s.pending.dom().len(),
{
    let head = s.heads[author];
    if s.pending.dom().finite() && s.pending.contains_key(head) {
        let child = s.pending[head][0];
        let next = s.unparked(head).advanced(author, child.0, child.1, epoch);
        lemma_bridge_touches_one_author(next, author, epoch, other);
    }
}

/// Admission moves no other author's head and no committed height.
pub proof fn law_authors_are_independent(
    s: ChainsState,
    hash: DataBlockHash,
    height: u64,
    parent: DataBlockHash,
    author: usize,
    epoch: u64,
    other: usize,
)
    requires
        other != author,
    ensures
        ({
            let e = s.admitted(hash, height, parent, author, epoch);
            &&& e.heads.contains_key(other) == s.heads.contains_key(other)
            &&& e.heads[other] == s.heads[other]
            &&& e.head_height(other) == s.head_height(other)
            &&& e.snapshots[other] == s.snapshots[other]
            &&& e.committed == s.committed
        }),
{
    if s.verdict(height, parent, author) is Extended {
        lemma_bridge_touches_one_author(s.advanced(author, hash, height, epoch), author, epoch, other);
    }
}

/// A block that extends a head nobody waits for becomes the head, higher than the one before;
/// admitted again, it is a duplicate and changes nothing.
pub proof fn law_extension_becomes_head(
    s: ChainsState,
    hash: DataBlockHash,
    height: u64,
    parent: DataBlockHash,
    author: usize,
    epoch: u64,
)
    requires
        s.verdict(height, parent, author) is Extended,
        !s.pending.contains_key(hash),
    ensures
        ({
            let e = s.admitted(hash, height, parent, author, epoch);
            &&& e.heads[author] == hash
            &&& e.head_height(author) == height
            &&& height > s.head_height(author)
            &&& e.verdict(height, parent, author) is Duplicate
            &&& e.admitted(hash, height, parent, author, epoch) == e
        }),
{
}

/// A child that waited for its parent becomes the head as soon as the parent is admitted.
pub proof fn law_late_parent_unlocks_child(
    s: ChainsState,
    hash: DataBlockHash,
    height: u64,
    parent: DataBlockHash,
    author: usize,
    epoch: u64,
    child: DataBlockHash,
    child_height: u64,
)
    requires
        s.inv(),
        s.verdict(height, parent, author) is Extended,
        s.pending.contains_key(hash),
        s.pending[hash][0] == (child, child_height),
        !s.pending.contains_key(child),
    ensures
        ({
            let e = s.admitted(hash, height, parent, author, epoch);
            &&& e.heads[author] == child
            &&& e.head_height(author) == child_height
            &&& !e.pending.contains_key(hash)
        }),
{
    let a = s.advanced(author, hash, height, epoch);
    let b = a.unparked(hash).advanced(author, child, child_height, epoch);
    assert(a.bridged(author, epoch) == b.bridged(author, epoch));
    assert(b.bridged(author, epoch) == b);
}

/// A block whose parent is not the head waits for that parent, behind those that came before it.
pub proof fn law_orphan_waits(
    s: ChainsState,
    hash: DataBlockHash,
    height: u64,
    parent: DataBlockHash,
    author: usize,
    epoch: u64,
)
    requires
        s.inv(),
        s.verdict(height, parent, author) is Parked,
    ensures
        ({
            let e = s.admitted(hash, height, parent, author, epoch);
            &&& e.pending.contains_key(parent)
            &&& e.pending[parent].last() == (hash, height)
            &&& e.heads == s.heads
            &&& e.heights == s.heights
        }),
{
}

/// However many children wait, one more lets at most one go, and that is the one that has waited
/// longest: every other one waits on, and so does the new one, for a parent that it names.
pub proof fn law_newest_children_wait_on(
    s: ChainsState,
    hash: DataBlockHash,
    height: u64,
    parent: DataBlockHash,
    author: usize,
    epoch: u64,
)
    requires
        s.inv(),
        s.verdict(height, parent, author) is Parked,
    ensures
        ({
            let e = s.admitted(hash, height, parent, author, epoch);
            let full = s.arrivals.len() >= MAX_PENDING;
            &&& e.arrivals.len() <= MAX_PENDING
            &&& e.arrivals == (if full {
                s.arrivals.drop_first()
            } else {
                s.arrivals
            }).push(parent)
            &&& e.line(parent).last() == (hash, height)
            &&& forall|p: DataBlockHash| p != parent && !(full && p == s.arrivals.first()) ==> #[trigger] e.line(p)
                == s.line(p)
            &&& full && s.arrivals.first() != parent ==> e.line(s.arrivals.first()) == s.line(
                s.arrivals.first(),
            ).drop_first()
            &&& e.line(parent).drop_last() == (if full && s.arrivals.first() == parent {
                s.line(parent).drop_first()
            } else {
                s.line(parent)
            })
        }),
{
    let full = s.arrivals.len() >= MAX_PENDING;
    let e = s.admitted(hash, height, parent, author, epoch);
    if full {
        let first = s.arrivals.first();
        lemma_count_first(s.arrivals, first);
        assert(s.pending.contains_key(first));
        let line = s.pending[first].drop_first();
        if line.len() == 0 {
            assert(line =~= Seq::empty());
        }
        assert(s.oldest_dropped().line(first) =~= line);
        assert forall|p: DataBlockHash| p != first implies #[trigger] s.oldest_dropped().line(p) == s.line(p) by {}
        assert(e.line(parent).drop_last() =~= s.oldest_dropped().line(parent));
    } else {
        assert(e.line(parent).drop_last() =~= s.line(parent));
    }
}

proof fn lemma_descent_heights<Tx>(
    store: Map<DataBlockHash, Arc<DataBlock<Tx>>>,
    genesis: DataBlockHash,
    tip: DataBlockHash,
    from: u64,
    steps: nat,
)
    ensures
        forall|i: int|
            0 <= i < descent(store, genesis, tip, from, steps).len() ==> (#[trigger] descent(
                store,
                genesis,
                tip,
                from,
                steps,
            )[i]).envelope.height > from,
    decreases steps,
{
    if steps > 0 && tip != genesis && store.contains_key(tip) {
        let block = store[tip];
        if block.envelope.height > from && block.envelope.height > from + 1 {
            let rest = descent(store, genesis, block.envelope.parent_hash, from, (steps - 1) as nat);
            lemma_descent_heights(store, genesis, block.envelope.parent_hash, from, (steps - 1) as nat);
            let all = descent(store, genesis, tip, from, steps);
            assert forall|i: int| 0 <= i < all.len() implies (#[trigger] all[i]).envelope.height > from by {
                if i > 0 {
                    assert(all[i] == rest[i - 1]);
                }
            }
        }
    }
}

proof fn lemma_ascending_members<Tx>(blocks: Seq<Arc<DataBlock<Tx>>>, to: u64)
    ensures
        forall|i: int|
            0 <= i < ascending(blocks, to).len() ==> (#[trigger] ascending(blocks, to)[i]).envelope.height <= to
                && blocks.contains(ascending(blocks, to)[i]),
    decreases blocks.len(),
{
    if blocks.len() > 0 {
        lemma_ascending_members(blocks.drop_first(), to);
        let rest = ascending(blocks.drop_first(), to);
        let all = ascending(blocks, to);
        assert forall|i: int| 0 <= i < all.len() implies (#[trigger] all[i]).envelope.height <= to && blocks.contains(
            all[i],
        ) by {
            if i < rest.len() {
                assert(all[i] == rest[i]);
                let j = choose|j: int| 0 <= j < blocks.drop_first().len() && blocks.drop_first()[j] == rest[i];
                assert(blocks[j + 1] == rest[i]);
            } else {
                assert(blocks[0] == all[i]);
            }
        }
    }
}

/// A range holds only blocks of the heights asked for.
pub proof fn law_range_heights<Tx>(
    store: Map<DataBlockHash, Arc<DataBlock<Tx>>>,
    genesis: DataBlockHash,
    tip: DataBlockHash,
    from: u64,
    to: u64,
)
    ensures
        forall|i: int|
            0 <= i < range_of(store, genesis, tip, from, to).len() ==> from < (#[trigger] range_of(
                store,
                genesis,
                tip,
                from,
                to,
            )[i]).envelope.height <= to,
{
    let down = descent(store, genesis, tip, from, store.dom().len());
    lemma_descent_heights(store, genesis, tip, from, store.dom().len());
    lemma_ascending_members(down, to);
    let up = range_of(store, genesis, tip, from, to);
    assert forall|i: int| 0 <= i < up.len() implies from < (#[trigger] up[i]).envelope.height <= to by {
        let j = choose|j: int| 0 <= j < down.len() && down[j] == up[i];
        assert(down[j].envelope.height > from);
    }
}

/// Each block of a walk is the parent of the one before it.
pub proof fn law_descent_is_linked<Tx>(
    store: Map<DataBlockHash, Arc<DataBlock<Tx>>>,
    genesis: DataBlockHash,
    tip: DataBlockHash,
    from: u64,
    steps: nat,
    i: int,
)
    requires
        0 <= i < descent(store, genesis, tip, from, steps).len() - 1,
    ensures
        ({
            let down = descent(store, genesis, tip, from, steps);
            &&& down[0] == store[tip]
            &&& store.contains_key(down[i].envelope.parent_hash)
            &&& down[i + 1] == store[down[i].envelope.parent_hash]
        }),
    decreases steps,
{
    let block = store[tip];
    let parent = block.envelope.parent_hash;
    let rest = descent(store, genesis, parent, from, (steps - 1) as nat);
    let down = descent(store, genesis, tip, from, steps);
    assert(down =~= seq![block].add(rest));
    if i > 0 {
        law_descent_is_linked(store, genesis, parent, from, (steps - 1) as nat, i - 1);
        assert(down[i] == rest[i - 1]);
        assert(down[i + 1] == rest[i]);
    } else {
        assert(down[1] == rest[0]);
    }
}

/// The walk goes no further than this digest.
pub open spec fn walk_stops<Tx>(
    store: Map<DataBlockHash, Arc<DataBlock<Tx>>>,
    genesis: DataBlockHash,
    tip: DataBlockHash,
    from: u64,
) -> bool {
    tip == genesis || !store.contains_key(tip) || store[tip].envelope.height <= from + 1
}

/// The walk from this digest comes to its end after at most `n` parents.
pub open spec fn walk_ends<Tx>(
    store: Map<DataBlockHash, Arc<DataBlock<Tx>>>,
    genesis: DataBlockHash,
    tip: DataBlockHash,
    from: u64,
    n: nat,
) -> bool
    decreases n,
{
    walk_stops(store, genesis, tip, from) || (n > 0 && walk_ends(
        store,
        genesis,
        store[tip].envelope.parent_hash,
        from,
        (n - 1) as nat,
    ))
}

/// The walk meets another digest within `n` parents.
spec fn walk_meets<Tx>(
    store: Map<DataBlockHash, Arc<DataBlock<Tx>>>,
    genesis: DataBlockHash,
    tip: DataBlockHash,
    from: u64,
    n: nat,
    other: DataBlockHash,
) -> bool
    decreases n,
{
    tip == other || (!walk_stops(store, genesis, tip, from) && n > 0 && walk_meets(
        store,
        genesis,
        store[tip].envelope.parent_hash,
        from,
        (n - 1) as nat,
        other,
    ))
}

proof fn lemma_ends_monotone<Tx>(
    store: Map<DataBlockHash, Arc<DataBlock<Tx>>>,
    genesis: DataBlockHash,
    tip: DataBlockHash,
    from: u64,
    n: nat,
)
    requires
        walk_ends(store, genesis, tip, from, n),
    ensures
        walk_ends(store, genesis, tip, from, n + 1),
    decreases n,
{
    if !walk_stops(store, genesis, tip, from) {
        lemma_ends_monotone(store, genesis, store[tip].envelope.parent_hash, from, (n - 1) as nat);
    }
}

proof fn lemma_no_return<Tx>(
    store: Map<DataBlockHash, Arc<DataBlock<Tx>>>,
    genesis: DataBlockHash,
    p: DataBlockHash,
    from: u64,
    n: nat,
    tip: DataBlockHash,
)
    requires
        walk_ends(store, genesis, p, from, n),
        !walk_ends(store, genesis, tip, from, n),
    ensures
        !walk_meets(store, genesis, p, from, n, tip),
    decreases n,
{
    if !walk_stops(store, genesis, p, from) {
        if walk_ends(store, genesis, tip, from, (n - 1) as nat) {
            lemma_ends_monotone(store, genesis, tip, from, (n - 1) as nat);
        }
        lemma_no_return(store, genesis, store[p].envelope.parent_hash, from, (n - 1) as nat, tip);
    }
}

proof fn lemma_unmet_is_unused<Tx>(
    store: Map<DataBlockHash, Arc<DataBlock<Tx>>>,
    genesis: DataBlockHash,
    p: DataBlockHash,
    from: u64,
    n: nat,
    tip: DataBlockHash,
    steps: nat,
)
    requires
        walk_ends(store, genesis, p, from, n),
        !walk_meets(store, genesis, p, from, n, tip),
    ensures
        walk_ends(store.remove(tip), genesis, p, from, n),
        descent(store.remove(tip), genesis, p, from, steps) == descent(store, genesis, p, from, steps),
    decreases n,
{
    if !walk_stops(store, genesis, p, from) {
        lemma_unmet_is_unused(
            store,
            genesis,
            store[p].envelope.parent_hash,
            from,
            (n - 1) as nat,
            tip,
            if steps > 0 {
                (steps - 1) as nat
            } else {
                0
            },
        );
    }
}

proof fn lemma_more_steps<Tx>(
    store: Map<DataBlockHash, Arc<DataBlock<Tx>>>,
    genesis: DataBlockHash,
    tip: DataBlockHash,
    from: u64,
    n: nat,
    steps: nat,
)
    requires
        walk_ends(store, genesis, tip, from, n),
        steps >= n + 1,
    ensures
        descent(store, genesis, tip, from, steps) == descent(store, genesis, tip, from, n + 1),
    decreases n,
{
    if !walk_stops(store, genesis, tip, from) {
        lemma_more_steps(store, genesis, store[tip].envelope.parent_hash, from, (n - 1) as nat, (steps - 1) as nat);
    }
}

/// Where the walk down a chain has an end, the bound on its steps cuts nothing off: a walk of as
/// many steps as there are bodies is the whole walk.
pub proof fn law_walk_is_complete<Tx>(
    store: Map<DataBlockHash, Arc<DataBlock<Tx>>>,
    genesis: DataBlockHash,
    tip: DataBlockHash,
    from: u64,
    n: nat,
)
    requires
        store.dom().finite(),
        walk_ends(store, genesis, tip, from, n),
    ensures
        descent(store, genesis, tip, from, store.dom().len()) == descent(store, genesis, tip, from, n + 1),
    decreases store.dom().len(), n,
{
    if walk_stops(store, genesis, tip, from) {
        if store.contains_key(tip) {
            assert(store.dom().len() > 0) by {
                assert(store.dom().contains(tip));
                if store.dom().len() == 0 {
                    store.dom().lemma_len0_is_empty();
                }
            }
        }
    } else if n > 0 && walk_ends(store, genesis, tip, from, (n - 1) as nat) {
        law_walk_is_complete(store, genesis, tip, from, (n - 1) as nat);
        lemma_more_steps(store, genesis, tip, from, (n - 1) as nat, n + 1);
    } else {
        let p = store[tip].envelope.parent_hash;
        let less = store.remove(tip);
        let len = store.dom().len();
        assert(less.dom() =~= store.dom().remove(tip));
        assert(store.dom().contains(tip));
        assert(less.dom().len() == len - 1);
        lemma_no_return(store, genesis, p, from, (n - 1) as nat, tip);
        lemma_unmet_is_unused(store, genesis, p, from, (n - 1) as nat, tip, (len - 1) as nat);
        lemma_unmet_is_unused(store, genesis, p, from, (n - 1) as nat, tip, n);
        law_walk_is_complete(less, genesis, p, from, (n - 1) as nat);
    }
}

/// Above `from` no height of the author's chain is missing: every block of the author is one above its
/// parent, which is of the same author, and a parent is only missing where the range begins.
pub open spec fn is_gapless<Tx>(
    store: Map<DataBlockHash, Arc<DataBlock<Tx>>>,
    genesis: DataBlockHash,
    author: usize,
    from: u64,
) -> bool {
    &&& !store.contains_key(genesis)
    &&& forall|h: DataBlockHash| #[trigger]
        store.contains_key(h) && store[h].sig.signer == author && store[h].envelope.height > from + 1 ==> {
            let parent = store[h].envelope.parent_hash;
            &&& store.contains_key(parent)
            &&& store[parent].sig.signer == author
            &&& store[parent].envelope.height + 1 == store[h].envelope.height
        }
}

proof fn lemma_gapless_descent<Tx>(
    store: Map<DataBlockHash, Arc<DataBlock<Tx>>>,
    genesis: DataBlockHash,
    tip: DataBlockHash,
    from: u64,
    n: nat,
)
    requires
        is_gapless(store, genesis, store[tip].sig.signer, from),
        store.contains_key(tip),
        store[tip].envelope.height == from + 1 + n,
    ensures
        walk_ends(store, genesis, tip, from, n),
        descent(store, genesis, tip, from, n + 1).len() == n + 1,
        forall|i: int|
            0 <= i <= n ==> (#[trigger] descent(store, genesis, tip, from, n + 1)[i]).envelope.height == from + 1 + n - i,
    decreases n,
{
    if n > 0 {
        let parent = store[tip].envelope.parent_hash;
        lemma_gapless_descent(store, genesis, parent, from, (n - 1) as nat);
        let rest = descent(store, genesis, parent, from, n);
        let down = descent(store, genesis, tip, from, n + 1);
        assert(down =~= seq![store[tip]].add(rest));
        assert forall|i: int| 0 <= i <= n implies (#[trigger] down[i]).envelope.height == from + 1 + n - i by {
            if i > 0 {
                assert(down[i] == rest[i - 1]);
            }
        }
    }
}

proof fn lemma_ascending_all<Tx>(down: Seq<Arc<DataBlock<Tx>>>, to: u64)
    requires
        forall|i: int| 0 <= i < down.len() ==> (#[trigger] down[i]).envelope.height <= to,
    ensures
        ascending(down, to) == down.reverse(),
    decreases down.len(),
{
    if down.len() > 0 {
        lemma_ascending_all(down.drop_first(), to);
        assert(down.reverse() =~= down.drop_first().reverse().push(down.first()));
    } else {
        assert(down.reverse() =~= Seq::empty());
    }
}

proof fn lemma_ascending_skips<Tx>(down: Seq<Arc<DataBlock<Tx>>>, to: u64, n: int)
    requires
        0 <= n <= down.len(),
        forall|i: int| 0 <= i < n ==> (#[trigger] down[i]).envelope.height > to,
    ensures
        ascending(down, to) == ascending(down.skip(n), to),
    decreases n,
{
    if n > 0 {
        let rest = down.drop_first();
        assert(down[0].envelope.height > to);
        assert forall|i: int| 0 <= i < n - 1 implies (#[trigger] rest[i]).envelope.height > to by {
            assert(rest[i] == down[i + 1]);
        }
        lemma_ascending_skips(rest, to, n - 1);
        assert(rest.skip(n - 1) =~= down.skip(n));
    } else {
        assert(down.skip(0) =~= down);
    }
}

/// Where no height of its author's chain is missing below a block, a range up to its height or less has one block of each
/// height, in order, and each block is the parent of the next one.
pub proof fn law_range_is_complete<Tx>(
    store: Map<DataBlockHash, Arc<DataBlock<Tx>>>,
    genesis: DataBlockHash,
    tip: DataBlockHash,
    from: u64,
    to: u64,
)
    requires
        store.dom().finite(),
        is_gapless(store, genesis, store[tip].sig.signer, from),
        store.contains_key(tip),
        store[tip].envelope.height >= to,
        from < to,
    ensures
        ({
            let r = range_of(store, genesis, tip, from, to);
            &&& r.len() == to - from
            &&& forall|i: int| 0 <= i < r.len() ==> (#[trigger] r[i]).envelope.height == from + 1 + i
            &&& forall|i: int, j: int|
                0 <= i && j == i + 1 && j < r.len() ==> store[(#[trigger] r[j]).envelope.parent_hash] == #[trigger] r[i]
            &&& store[tip].envelope.height == to ==> r.last() == store[tip]
        }),
{
    let top = store[tip].envelope.height;
    let n = (top - from - 1) as nat;
    lemma_gapless_descent(store, genesis, tip, from, n);
    law_walk_is_complete(store, genesis, tip, from, n);
    let down = descent(store, genesis, tip, from, n + 1);
    let above = top - to;
    assert forall|i: int| 0 <= i < above implies (#[trigger] down[i]).envelope.height > to by {}
    lemma_ascending_skips(down, to, above);
    let kept = down.skip(above);
    assert forall|i: int| 0 <= i < kept.len() implies (#[trigger] kept[i]).envelope.height <= to by {
        assert(kept[i] == down[above + i]);
    }
    lemma_ascending_all(kept, to);
    let r = range_of(store, genesis, tip, from, to);
    assert(r == kept.reverse());
    assert forall|i: int| 0 <= i < r.len() implies (#[trigger] r[i]) == down[n - i] by {}
    assert forall|i: int| 0 <= i < r.len() implies (#[trigger] r[i]).envelope.height == from + 1 + i by {
        assert(r[i] == down[n - i]);
    }
    assert forall|i: int, j: int| 0 <= i && j == i + 1 && j < r.len() implies store[(#[trigger] r[j]).envelope.parent_hash]
        == #[trigger] r[i] by {
        assert(r[i] == down[n - i]);
        assert(r[j] == down[n - j]);
        law_descent_is_linked(store, genesis, tip, from, n + 1, n - j);
    }
    if top == to {
        assert(r.last() == down[0]);
    }
}

} // verus!
