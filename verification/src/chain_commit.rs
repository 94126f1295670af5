//! The commit rule that both chains share: a new head is followed down to what has committed, and an
//! element commits once a quorum of proposers stands behind it.
use crate::commit_window::{
    commit_len, distinct_keys, proposers, spec_commit_len, CommitRun, CommitWindow, Walk, WalkState, WalkStep,
    WindowState,
};
use crate::digest::Digest;
use crate::linked_map::{find, has_key, Link};
use vstd::prelude::*;

verus! {

/// The window of undecided elements, and the highest element that has committed.
pub struct ChainCommit {
    commit_len: usize,
    highest_round: u64,
    highest_hash: Digest,
    window: CommitWindow,
}

/// What there is to know of a commit context.
#[verifier::ext_equal]
pub struct CommitState {
    pub commit_len: nat,
    pub highest_round: u64,
    pub highest_hash: Digest,
    pub window: WindowState,
}

impl CommitState {
    /// One step of the walk down from a new head.
    pub open spec fn stepped(self, w: WalkState) -> (WalkState, WalkStep) {
        self.window.stepped(w, self.highest_hash, self.highest_round)
    }

    /// What stays of the window after a walk: all of it where the walk met its end, nothing where
    /// it did not.
    pub open spec fn kept(self, w: WalkState) -> WindowState {
        if w.connected {
            self.window
        } else {
            WindowState::empty()
        }
    }

    /// The window after a walk: the elements passed on the way follow, the oldest first.
    pub open spec fn merged(self, w: WalkState) -> WindowState {
        self.kept(w).recorded_all(w.local.queue.reverse())
    }

    /// The elements passed on the way can be counted within the machine's limit.
    pub open spec fn can_finish(self, w: WalkState) -> bool {
        self.kept(w).can_take(w.local.queue.len()) && w.local.queue.len() <= usize::MAX
    }

    /// The state after a walk: elements commit, the oldest first, while a quorum of proposers is in
    /// the window.
    pub open spec fn finished(self, w: WalkState) -> Self {
        let d = self.merged(w).drained(self.commit_len);
        if d.committed.len() == 0 {
            CommitState { window: d.rest, ..self }
        } else {
            CommitState {
                window: d.rest,
                highest_hash: d.committed.last().0,
                highest_round: d.committed.last().1.round,
                ..self
            }
        }
    }
}

impl ChainCommit {
    pub closed spec fn view(&self) -> CommitState {
        CommitState {
            commit_len: self.commit_len as nat,
            highest_round: self.highest_round,
            highest_hash: self.highest_hash,
            window: self.window@,
        }
    }

    pub open spec fn wf(&self) -> bool {
        self@.window.counted()
    }

    /// A context in which only the genesis element is known. It has committed.
    pub fn new(genesis_hash: Digest, genesis: Link, num_nodes: usize, num_faults: usize) -> (r: Self)
        requires
            num_nodes + num_faults < usize::MAX,
        ensures
            r.wf(),
            r@ == (CommitState {
                commit_len: spec_commit_len(num_nodes, num_faults),
                highest_round: genesis.round,
                highest_hash: genesis_hash,
                window: WindowState::empty(),
            }),
    {
        ChainCommit {
            commit_len: commit_len(num_nodes, num_faults),
            highest_round: genesis.round,
            highest_hash: genesis_hash,
            window: CommitWindow::new(),
        }
    }

    /// Takes one step of the walk.
    pub fn step(&self, walk: &mut Walk) -> (r: WalkStep)
        requires
            old(walk)@.can_step(),
        ensures
            (final(walk)@, r) == self@.stepped(old(walk)@),
    {
        self.window.step(walk, &self.highest_hash, self.highest_round)
    }

    /// Whether the elements passed on the way can be counted.
    pub fn can_finish(&self, walk: &Walk) -> (r: bool)
        ensures
            r == self@.can_finish(walk@),
    {
        let n: usize = walk.local.len();
        !walk.connected || self.window.can_take(n)
    }

    /// Ends the walk and lets elements commit for as long as a quorum of proposers is in the
    /// window.
    pub fn finish(&mut self, walk: Walk) -> (r: CommitRun)
        requires
            old(self).wf(),
            old(self)@.can_finish(walk@),
        ensures
            final(self).wf(),
            final(self)@ == old(self)@.finished(walk@),
            ({
                let d = old(self)@.merged(walk@).drained(old(self)@.commit_len);
                r.committed@ == d.committed && r.exhausted == d.stuck
            }),
    {
        if !walk.connected {
            self.window = CommitWindow::new();
        }
        self.window.record_reversed(&walk.local);
        let (committed, exhausted) = self.window.drain(self.commit_len);
        if committed.len() > 0 {
            let last: (Digest, Link) = committed[committed.len() - 1];
            self.highest_hash = last.0;
            self.highest_round = last.1.round;
        }
        CommitRun { committed, exhausted }
    }
}

/// A store of elements in which every element is of a later round than its parent.
pub open spec fn is_forest(store: Map<Digest, Link>) -> bool {
    forall|d: Digest| #[trigger]
        store.contains_key(d) && store.contains_key(store[d].parent) ==> store[store[d].parent].round < store[d].round
}

/// The entries are elements of the store, under their digests.
pub open spec fn stored(queue: Seq<(Digest, Link)>, store: Map<Digest, Link>) -> bool {
    forall|i: int| 0 <= i < queue.len() ==> store.contains_key((#[trigger] queue[i]).0) && store[queue[i].0] == queue[i].1
}

/// Each entry is the child of the one before.
pub open spec fn is_chain(queue: Seq<(Digest, Link)>) -> bool {
    &&& forall|i: int, j: int| 0 <= i && j == i + 1 && j < queue.len() ==> (#[trigger] queue[j]).1.parent == (
    #[trigger] queue[i]).0
    &&& forall|i: int, j: int| 0 <= i < j < queue.len() ==> (#[trigger] queue[i]).1.round < (#[trigger] queue[j]).1.round
}

impl CommitState {
    /// The window is a chain of elements after the one that has committed last, and its counters
    /// count it.
    pub open spec fn chained(self, store: Map<Digest, Link>) -> bool {
        &&& is_chain(self.window.queue)
        &&& stored(self.window.queue, store)
        &&& self.window.matched()
        &&& forall|i: int| 0 <= i < self.window.queue.len() ==> (#[trigger] self.window.queue[i]).1.round > self.highest_round
    }

    /// The walk has passed a chain down from its head, and stands at the parent of the element it
    /// passed last.
    pub open spec fn on_course(self, w: WalkState, store: Map<Digest, Link>) -> bool {
        let q = w.local.queue;
        &&& is_chain(q.reverse())
        &&& stored(q, store)
        &&& q.len() > 0 ==> q.last().1.parent == w.head_hash
        &&& w.head is Some ==> store.contains_key(w.head_hash) && store[w.head_hash] == w.head->0
        &&& forall|i: int| 0 <= i < q.len() ==> (#[trigger] q[i]).1.round > self.highest_round
        &&& w.connected ==> self.window.queue.len() > 0 && self.window.queue.last().0 == w.head_hash
    }
}

/// A walk over the elements of a store stays on course, step by step, where every element is of a
/// later round than its parent.
pub proof fn law_walk_stays_on_course(s: CommitState, w: WalkState, store: Map<Digest, Link>)
    requires
        is_forest(store),
        s.chained(store),
        s.on_course(w, store),
        !w.connected,
    ensures
        ({
            let (next, step) = s.stepped(w);
            &&& s.on_course(next, store)
            &&& step matches WalkStep::Read(d) ==> {
                &&& d == next.head_hash
                &&& !next.connected
                &&& store.contains_key(d) ==> s.on_course(WalkState { head: Some(store[d]), ..next }, store)
            }
            &&& step is Continue ==> !next.connected && next.head is Some
            &&& step is Done ==> next.local == w.local
            &&& !(step is Done) ==> w.head is Some && next.local.queue == w.local.queue.push((w.head_hash, w.head->0))
            &&& !(step is Done) ==> next.head_hash == w.head->0.parent
        }),
{
    let (next, step) = s.stepped(w);
    if let Some(h) = w.head {
        let q = w.local.queue;
        let goes_on = h.round > s.highest_round && !(s.window.queue.len() > 0 && s.window.queue.last().0
            == w.head_hash) && w.head_hash != s.highest_hash;
        if goes_on {
            if q.len() > 0 {
                assert(q.reverse()[0] == q.last());
                assert(store.contains_key(q[q.len() - 1].0));
                assert(q.last().1.round > h.round);
            }
            assert(!has_key(q, w.head_hash)) by {
                if has_key(q, w.head_hash) {
                    let i = choose|i: int| 0 <= i < q.len() && (#[trigger] q[i]).0 == w.head_hash;
                    assert(q[i].1 == h);
                    let back = q.reverse();
                    assert(back[q.len() - 1 - i] == q[i]);
                    assert(back[0] == q.last());
                    assert(back[0].1.round <= back[q.len() - 1 - i].1.round);
                }
            }
            crate::commit_window::lemma_without_absent(q, w.head_hash);
            let grown = next.local.queue;
            assert(grown == q.push((w.head_hash, h)));
            let up = grown.reverse();
            let back = q.reverse();
            assert forall|i: int, j: int| 0 <= i < j < up.len() implies (#[trigger] up[i]).1.round < (
            #[trigger] up[j]).1.round by {
                assert(up[j] == back[j - 1]);
                assert(back[0] == q.last());
                if i > 0 {
                    assert(up[i] == back[i - 1]);
                } else if j > 1 {
                    assert(back[0].1.round < back[j - 1].1.round);
                }
            }
            assert forall|i: int, j: int| 0 <= i && j == i + 1 && j < up.len() implies (#[trigger] up[j]).1.parent == (
            #[trigger] up[i]).0 by {
                assert(up[j] == back[j - 1]);
                if i > 0 {
                    assert(up[i] == back[i - 1]);
                } else {
                    assert(back[0] == q.last());
                }
            }
            if find(grown, h.parent) is Some {
                let i = choose|i: int| 0 <= i < grown.len() && (#[trigger] grown[i]).0 == h.parent;
                assert(store[grown[i].0] == grown[i].1);
            } else if find(s.window.queue, h.parent) is Some {
                let i = choose|i: int| 0 <= i < s.window.queue.len() && (#[trigger] s.window.queue[i]).0 == h.parent;
                assert(store[s.window.queue[i].0] == s.window.queue[i].1);
            }
        }
    }
}

/// A walk that starts at an element of the store is on course.
pub proof fn law_walk_starts_on_course(s: CommitState, hash: Digest, store: Map<Digest, Link>)
    requires
        store.contains_key(hash),
    ensures
        s.on_course(WalkState::start(hash, store[hash]), store),
{
}

/// The elements of a chain have different digests.
proof fn lemma_chain_keys_differ(q: Seq<(Digest, Link)>, store: Map<Digest, Link>)
    requires
        is_chain(q),
        stored(q, store),
    ensures
        distinct_keys(q),
{
    assert forall|i: int, j: int| 0 <= i < j < q.len() implies (#[trigger] q[i]).0 != (#[trigger] q[j]).0 by {
        assert(store[q[i].0] == q[i].1);
        assert(store[q[j].0] == q[j].1);
    }
}

/// Elements commit in the order of the chain. After a walk the window holds what it kept and then
/// the elements passed, each the child of the one before; what commits is the front of it, and what
/// stays is the rest. Each element that commits has a quorum of proposers from it on, the elements
/// that stay have not, and the next round finds the context as sound as this one.
#[verifier::spinoff_prover]
#[verifier::rlimit(60)]
pub proof fn law_commits_follow_the_chain(s: CommitState, w: WalkState, store: Map<Digest, Link>)
    requires
        is_forest(store),
        s.commit_len >= 1,
        s.chained(store),
        s.on_course(w, store),
        s.can_finish(w),
    ensures
        ({
            let all = s.kept(w).queue.add(w.local.queue.reverse());
            let d = s.merged(w).drained(s.commit_len);
            let e = s.finished(w);
            &&& is_chain(all)
            &&& !d.stuck
            &&& d.committed.add(e.window.queue) == all
            &&& forall|i: int| 0 <= i < d.committed.len() ==> proposers(#[trigger] all.skip(i)).len() >= s.commit_len
            &&& proposers(e.window.queue).len() < s.commit_len
            &&& e.highest_round >= s.highest_round
            &&& e.chained(store)
        }),
{
    let old = s.kept(w).queue;
    let up = w.local.queue.reverse();
    let all = old.add(up);
    let q = w.local.queue;
    assert forall|i: int| 0 <= i < up.len() implies (#[trigger] up[i]) == q[q.len() - 1 - i] by {}
    assert(stored(all, store)) by {
        assert forall|i: int| 0 <= i < all.len() implies store.contains_key((#[trigger] all[i]).0) && store[all[i].0]
            == all[i].1 by {
            if i < old.len() {
                assert(all[i] == s.window.queue[i]);
            } else {
                assert(all[i] == q[q.len() - 1 - (i - old.len())]);
            }
        }
    }
    if old.len() > 0 && up.len() > 0 {
        let end = s.window.queue.last();
        assert(up[0] == q.last());
        assert(store[s.window.queue[old.len() - 1].0] == end.1);
        assert(store[q[q.len() - 1].0] == up[0].1);
        assert(end.1.round < up[0].1.round);
    }
    assert(is_chain(all)) by {
        assert forall|i: int, j: int| 0 <= i && j == i + 1 && j < all.len() implies (#[trigger] all[j]).1.parent == (
        #[trigger] all[i]).0 by {
            if i >= old.len() {
                assert(up[j - old.len()].1.parent == up[i - old.len()].0);
            }
        }
        assert forall|i: int, j: int| 0 <= i < j < all.len() implies (#[trigger] all[i]).1.round < (
        #[trigger] all[j]).1.round by {
            if i >= old.len() {
                assert(up[i - old.len()].1.round < up[j - old.len()].1.round);
            } else if j >= old.len() {
                assert(i == old.len() - 1 || old[i].1.round < old[old.len() - 1].1.round);
                assert(j == old.len() || up[0].1.round < up[j - old.len()].1.round);
            }
        }
    }
    lemma_chain_keys_differ(all, store);
    assert(WindowState::empty().matched());
    crate::commit_window::law_new_elements_are_appended(s.kept(w), up);
    let m = s.merged(w);
    let d = m.drained(s.commit_len);
    crate::commit_window::law_matched_window_never_stuck(m, s.commit_len);
    crate::commit_window::law_drain_stops_below_quorum(m, s.commit_len);
    crate::commit_window::law_commits_have_quorum(m, s.commit_len);
    let rest = d.rest.queue;
    let n = d.committed.len() as int;
    assert(d.committed.add(rest) == all);
    assert forall|i: int| 0 <= i < rest.len() implies #[trigger] rest[i] == all[n + i] by {}
    assert forall|i: int| 0 <= i < n implies #[trigger] d.committed[i] == all[i] by {}
    let e = s.finished(w);
    assert forall|i: int| 0 <= i < all.len() implies (#[trigger] all[i]).1.round > s.highest_round by {
        if i < old.len() {
            assert(all[i] == s.window.queue[i]);
        } else {
            assert(all[i] == q[q.len() - 1 - (i - old.len())]);
        }
    }
    assert forall|i: int| 0 <= i < rest.len() implies (#[trigger] rest[i]).1.round > e.highest_round by {
        assert(rest[i] == all[n + i]);
        if n > 0 {
            assert(d.committed[n - 1] == all[n - 1]);
        }
    }
    assert(e.highest_round >= s.highest_round) by {
        if n > 0 {
            assert(d.committed[n - 1] == all[n - 1]);
        }
    }
    assert(is_chain(rest)) by {
        assert forall|i: int, j: int| 0 <= i && j == i + 1 && j < rest.len() implies (#[trigger] rest[j]).1.parent == (
        #[trigger] rest[i]).0 by {
            assert(all[n + j].1.parent == all[n + i].0);
        }
        assert forall|i: int, j: int| 0 <= i < j < rest.len() implies (#[trigger] rest[i]).1.round < (
        #[trigger] rest[j]).1.round by {
            assert(all[n + i].1.round < all[n + j].1.round);
        }
    }
    assert(stored(rest, store)) by {
        assert forall|i: int| 0 <= i < rest.len() implies store.contains_key((#[trigger] rest[i]).0) && store[rest[i].0]
            == rest[i].1 by {
            assert(rest[i] == all[n + i]);
        }
    }
}

/// A context that knows only the genesis element is sound.
pub proof fn law_fresh_context_is_chained(commit_len: nat, hash: Digest, round: u64, store: Map<Digest, Link>)
    ensures
        ({
            let s = CommitState {
                commit_len,
                highest_round: round,
                highest_hash: hash,
                window: WindowState::empty(),
            };
            s.chained(store) && s.rooted()
        }),
{
    assert(WindowState::empty().matched());
}

impl CommitState {
    /// The walk over the elements of a store, to its end or for so many steps.
    pub open spec fn walked(self, w: WalkState, store: Map<Digest, Link>, steps: nat) -> WalkState
        decreases steps,
    {
        if steps == 0 {
            w
        } else {
            let (next, step) = self.stepped(w);
            match step {
                WalkStep::Done => next,
                WalkStep::Continue => self.walked(next, store, (steps - 1) as nat),
                WalkStep::Read(d) => if store.contains_key(d) {
                    self.walked(WalkState { head: Some(store[d]), ..next }, store, (steps - 1) as nat)
                } else {
                    next
                },
            }
        }
    }

    /// The window begins right after the element that has committed last.
    pub open spec fn rooted(self) -> bool {
        self.window.queue.len() > 0 ==> self.window.queue.first().1.parent == self.highest_hash
    }
}

proof fn lemma_walked_on_course(s: CommitState, w: WalkState, store: Map<Digest, Link>, steps: nat)
    requires
        is_forest(store),
        s.chained(store),
        s.on_course(w, store),
        !w.connected,
    ensures
        s.on_course(s.walked(w, store, steps), store),
    decreases steps,
{
    if steps > 0 {
        law_walk_stays_on_course(s, w, store);
        let (next, step) = s.stepped(w);
        match step {
            WalkStep::Done => {},
            WalkStep::Continue => {
                lemma_walked_on_course(s, next, store, (steps - 1) as nat);
            },
            WalkStep::Read(d) => {
                if store.contains_key(d) {
                    lemma_walked_on_course(
                        s,
                        WalkState { head: Some(store[d]), ..next },
                        store,
                        (steps - 1) as nat,
                    );
                }
            },
        }
    }
}

/// A round that ends with an element of a store lets a chain of elements commit, oldest first,
/// however many elements the walk passes. Each of them has a quorum of proposers from it on, none that
/// stays has, the window never runs out, and the next round finds the context as sound as this one.
pub proof fn law_round_commits_by_quorum(s: CommitState, hash: Digest, store: Map<Digest, Link>, steps: nat)
    requires
        is_forest(store),
        store.contains_key(hash),
        s.commit_len >= 1,
        s.chained(store),
        s.can_finish(s.walked(WalkState::start(hash, store[hash]), store, steps)),
    ensures
        ({
            let w = s.walked(WalkState::start(hash, store[hash]), store, steps);
            let d = s.merged(w).drained(s.commit_len);
            let e = s.finished(w);
            let all = d.committed.add(e.window.queue);
            &&& is_chain(all)
            &&& !d.stuck
            &&& forall|i: int| 0 <= i < d.committed.len() ==> proposers(#[trigger] all.skip(i)).len() >= s.commit_len
            &&& proposers(e.window.queue).len() < s.commit_len
            &&& e.highest_round >= s.highest_round
            &&& e.chained(store)
        }),
{
    let start = WalkState::start(hash, store[hash]);
    law_walk_starts_on_course(s, hash, store);
    lemma_walked_on_course(s, start, store, steps);
    law_commits_follow_the_chain(s, s.walked(start, store, steps), store);
}

/// No element is passed over: where the window begins right after what has committed, and the walk
/// meets the window's end or comes down to what has committed, what commits begins right after it too,
/// and so does the window that stays.
pub proof fn law_nothing_is_passed_over(s: CommitState, w: WalkState, store: Map<Digest, Link>)
    requires
        is_forest(store),
        s.commit_len >= 1,
        s.chained(store),
        s.rooted(),
        s.on_course(w, store),
        s.can_finish(w),
        w.connected || w.head_hash == s.highest_hash,
    ensures
        ({
            let d = s.merged(w).drained(s.commit_len);
            &&& d.committed.len() > 0 ==> d.committed.first().1.parent == s.highest_hash
            &&& s.finished(w).rooted()
        }),
{
    law_commits_follow_the_chain(s, w, store);
    let q = w.local.queue;
    let up = q.reverse();
    let all = s.kept(w).queue.add(up);
    let d = s.merged(w).drained(s.commit_len);
    let e = s.finished(w);
    let n = d.committed.len() as int;
    assert(d.committed.add(e.window.queue) == all);
    assert forall|i: int| 0 <= i < n implies #[trigger] d.committed[i] == all[i] by {}
    assert forall|i: int| 0 <= i < e.window.queue.len() implies #[trigger] e.window.queue[i] == all[n + i] by {}
    if all.len() > 0 {
        if w.connected {
            assert(all[0] == s.window.queue[0]);
        } else {
            assert(all[0] == up[0]);
            assert(up[0] == q.last());
        }
        assert(all[0].1.parent == s.highest_hash);
        if n > 0 {
            assert(d.committed[0] == all[0]);
            assert(d.committed[n - 1] == all[n - 1]);
            if e.window.queue.len() > 0 {
                assert(e.window.queue[0] == all[n]);
                assert(all[n].1.parent == all[n - 1].0);
            }
        } else if e.window.queue.len() > 0 {
            assert(e.window.queue[0] == all[0]);
        }
    }
}

/// The element of this digest descends from `root` in at most `n` steps, all of them over elements of
/// the store that are of rounds above `floor`. The rounds may be any distance apart.
pub open spec fn descends(store: Map<Digest, Link>, hash: Digest, root: Digest, floor: u64, n: nat) -> bool
    decreases n,
{
    hash == root || (n > 0 && store.contains_key(hash) && store[hash].round > floor && descends(
        store,
        store[hash].parent,
        root,
        floor,
        (n - 1) as nat,
    ))
}

/// A walk over the store ends only where it may, by the window's own rule: at an element that is not
/// above what has committed, at the element queued last, at the one that has committed, or below an
/// element whose parent is nowhere. Everything else it passes, and goes on to the parent.
pub proof fn law_walk_ends_only_where_it_may(s: CommitState, w: WalkState)
    ensures
        ({
            let (next, step) = s.stepped(w);
            let q = s.window.queue;
            &&& step is Done && w.head is Some ==> {
                ||| w.head->0.round <= s.highest_round
                ||| q.len() > 0 && q.last().0 == w.head_hash && next.connected
                ||| w.head_hash == s.highest_hash
            }
            &&& !(step is Done) ==> {
                &&& w.head is Some
                &&& next.local.queue.last() == (w.head_hash, w.head->0)
                &&& next.local.queue.len() > 0
                &&& next.head_hash == w.head->0.parent
                &&& next.connected == w.connected
            }
            &&& step matches WalkStep::Read(d) ==> d == w.head->0.parent && next.head is None
            &&& step is Continue ==> next.head is Some
            &&& step is Done && w.head is Some ==> next.head is None
            &&& step is Done ==> next.local == w.local && next.head_hash == w.head_hash
            &&& w.head is None ==> step is Done
            &&& next.connected && !w.connected ==> q.len() > 0 && q.last().0 == w.head_hash && w.head is Some
                && w.head->0.round > s.highest_round
        }),
{
}

#[verifier::spinoff_prover]
proof fn lemma_walk_comes_down(s: CommitState, w: WalkState, store: Map<Digest, Link>, n: nat, steps: nat)
    requires
        is_forest(store),
        s.chained(store),
        s.on_course(w, store),
        !w.connected,
        w.head is Some,
        descends(store, w.head_hash, s.highest_hash, s.highest_round, n),
        steps > n,
    ensures
        ({
            let e = s.walked(w, store, steps);
            &&& e.connected || e.head_hash == s.highest_hash
            &&& w.local.queue.len() > 0 ==> e.local.queue.len() > 0 && e.local.queue[0] == w.local.queue[0]
            &&& e.local.queue.len() > 0 && w.local.queue.len() == 0 ==> e.local.queue[0] == (w.head_hash, w.head->0)
            &&& e.local.queue.len() == 0 ==> e.head_hash == w.head_hash
        }),
    decreases n,
{
    law_walk_stays_on_course(s, w, store);
    law_walk_ends_only_where_it_may(s, w);
    let (next, step) = s.stepped(w);
    match step {
        WalkStep::Done => {
            assert(s.walked(w, store, steps) == next);
        },
        WalkStep::Continue => {
            assert(w.head_hash != s.highest_hash);
            lemma_walk_comes_down(s, next, store, (n - 1) as nat, (steps - 1) as nat);
            assert(s.walked(w, store, steps) == s.walked(next, store, (steps - 1) as nat));
        },
        WalkStep::Read(d) => {
            assert(w.head_hash != s.highest_hash);
            if store.contains_key(d) {
                let again = WalkState { head: Some(store[d]), ..next };
                lemma_walk_comes_down(s, again, store, (n - 1) as nat, (steps - 1) as nat);
                assert(s.walked(w, store, steps) == s.walked(again, store, (steps - 1) as nat));
            } else {
                assert(descends(store, d, s.highest_hash, s.highest_round, (n - 1) as nat));
                assert(d == s.highest_hash);
                assert(s.walked(w, store, steps) == next);
            }
        },
    }
}

/// A round takes in the whole chain of its head, however far apart the rounds of its elements are:
/// where every element from the head down to what has committed is in the store, a walk of enough
/// steps meets the window's end or comes down to what has committed. What commits and what stays is
/// then a chain that begins right after what had committed and ends with the head: no element of it
/// is passed over, now or by a later round.
pub proof fn law_round_takes_in_the_whole_chain(
    s: CommitState,
    hash: Digest,
    store: Map<Digest, Link>,
    n: nat,
    steps: nat,
)
    requires
        is_forest(store),
        store.contains_key(hash),
        store[hash].round > s.highest_round,
        hash != s.highest_hash,
        s.commit_len >= 1,
        s.chained(store),
        s.rooted(),
        descends(store, hash, s.highest_hash, s.highest_round, n),
        steps > n,
        s.can_finish(s.walked(WalkState::start(hash, store[hash]), store, steps)),
    ensures
        ({
            let w = s.walked(WalkState::start(hash, store[hash]), store, steps);
            let d = s.merged(w).drained(s.commit_len);
            let e = s.finished(w);
            let all = d.committed.add(e.window.queue);
            &&& w.connected || w.head_hash == s.highest_hash
            &&& is_chain(all)
            &&& all.len() > 0
            &&& all.first().1.parent == s.highest_hash
            &&& all.last() == (hash, store[hash])
            &&& forall|i: int| 0 <= i < d.committed.len() ==> proposers(#[trigger] all.skip(i)).len() >= s.commit_len
            &&& proposers(e.window.queue).len() < s.commit_len
            &&& e.chained(store)
            &&& e.rooted()
            &&& d.committed.len() > 0 ==> e.highest_hash == d.committed.last().0 && e.highest_round
                == d.committed.last().1.round
            &&& d.committed.len() == 0 ==> e.highest_hash == s.highest_hash && e.highest_round == s.highest_round
            &&& e.commit_len == s.commit_len
        }),
{
    let start = WalkState::start(hash, store[hash]);
    law_walk_starts_on_course(s, hash, store);
    lemma_walked_on_course(s, start, store, steps);
    lemma_walk_comes_down(s, start, store, n, steps);
    let w = s.walked(start, store, steps);
    law_commits_follow_the_chain(s, w, store);
    law_nothing_is_passed_over(s, w, store);
    let d = s.merged(w).drained(s.commit_len);
    let e = s.finished(w);
    let all = d.committed.add(e.window.queue);
    let q = w.local.queue;
    let up = q.reverse();
    assert(all == s.kept(w).queue.add(up));
    if q.len() > 0 {
        assert(up[q.len() - 1] == q[0]);
        assert(all.last() == q[0]);
        if w.connected {
            assert(all[0] == s.window.queue[0]);
        } else {
            assert(all[0] == up[0]);
            assert(up[0] == q.last());
        }
    } else {
        assert(w.connected);
        assert(up =~= Seq::empty());
        let back = s.window.queue.last();
        assert(s.window.queue[s.window.queue.len() - 1] == back);
        assert(all =~= s.window.queue);
        assert(all[0] == s.window.queue[0]);
    }
}

/// Only the machine's limit can keep a walk from being finished: a counter of the window that the
/// walk extends, or the length of the walk.
pub proof fn law_only_limits_stop_a_finish(s: CommitState, w: WalkState)
    ensures
        s.can_finish(w) <==> w.local.queue.len() <= usize::MAX && (w.connected ==> forall|a: usize| #[trigger]
            s.window.counts.contains_key(a) ==> s.window.counts[a] + w.local.queue.len() <= usize::MAX),
{
}

/// A walk that met the end of the window extends it, oldest element first; one that did not starts a new
/// window. What commits last is what has committed last then, and without a commit that stays.
pub proof fn law_walk_extends_or_replaces(s: CommitState, w: WalkState)
    ensures
        ({
            let m = s.merged(w);
            let d = m.drained(s.commit_len);
            let e = s.finished(w);
            &&& w.connected ==> m == s.window.recorded_all(w.local.queue.reverse())
            &&& !w.connected ==> m == WindowState::empty().recorded_all(w.local.queue.reverse())
            &&& e.window == d.rest
            &&& e.commit_len == s.commit_len
            &&& d.committed.len() > 0 ==> e.highest_hash == d.committed[d.committed.len() - 1].0 && e.highest_round
                == d.committed[d.committed.len() - 1].1.round
            &&& d.committed.len() == 0 ==> e.highest_hash == s.highest_hash && e.highest_round == s.highest_round
            &&& s.stepped(w) == s.window.stepped(w, s.highest_hash, s.highest_round)
        }),
{
}

} // verus!
