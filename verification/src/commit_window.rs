//! The sliding window of undecided chain elements and the proposers in it.
use crate::digest::{same_digest, Digest};
use crate::linked_map::{
    count_items, counts_get, counts_insert, counts_keys, counts_len, counts_new, counts_remove, find,
    has_key, law_entries_without_a_key, link_items, links_back, links_entries, links_get, links_insert, links_new, links_pop_front, put, without, Link,
};
use linked_hash_map::LinkedHashMap;
use vstd::prelude::*;

verus! {

/// The number of proposers that have to extend an element before it commits.
pub open spec fn spec_commit_len(num_nodes: usize, num_faults: usize) -> nat {
    ((num_nodes + num_faults + 1) / 2) as nat
}

/// The commit quorum of `num_nodes` nodes of which `num_faults` may fail.
pub fn commit_len(num_nodes: usize, num_faults: usize) -> (r: usize)
    requires
        num_nodes + num_faults < usize::MAX,
    ensures
        r == spec_commit_len(num_nodes, num_faults),
{
    (num_nodes + num_faults + 1) / 2
}

/// What a window holds: elements in the order they were queued, and a counter per proposer.
#[verifier::ext_equal]
pub struct WindowState {
    pub queue: Seq<(Digest, Link)>,
    pub counts: Map<usize, usize>,
}

/// What draining a window gives.
pub struct Drained {
    /// The elements that commit, in the order they commit.
    pub committed: Seq<(Digest, Link)>,
    /// What is left.
    pub rest: WindowState,
    /// The window claims enough proposers but has no counted element to commit.
    pub stuck: bool,
}

/// The counter of a proposer, 0 if it has none.
pub open spec fn count_of(counts: Map<usize, usize>, author: usize) -> int {
    if counts.contains_key(author) {
        counts[author] as int
    } else {
        0
    }
}

/// One proposal less of the proposer. A counter that reaches 0 is gone.
pub open spec fn one_less(counts: Map<usize, usize>, author: usize) -> Map<usize, usize> {
    if counts[author] == 1 {
        counts.remove(author)
    } else {
        counts.insert(author, (counts[author] - 1) as usize)
    }
}

impl WindowState {
    pub open spec fn empty() -> Self {
        WindowState { queue: Seq::empty(), counts: Map::empty() }
    }

    /// An element is queued and counted.
    pub open spec fn recorded(self, hash: Digest, link: Link) -> Self {
        WindowState {
            queue: put(self.queue, hash, link),
            counts: self.counts.insert(link.author, (count_of(self.counts, link.author) + 1) as usize),
        }
    }

    /// Counters never stand at 0.
    pub open spec fn counted(self) -> bool {
        &&& self.counts.dom().finite()
        &&& forall|a: usize| #[trigger] self.counts.contains_key(a) ==> self.counts[a] >= 1
    }

    /// Elements are queued and counted, one after the other.
    pub open spec fn recorded_all(self, entries: Seq<(Digest, Link)>) -> Self
        decreases entries.len(),
    {
        if entries.len() == 0 {
            self
        } else {
            self.recorded_all(entries.drop_last()).recorded(entries.last().0, entries.last().1)
        }
    }

    /// That many more elements can be counted within the machine's limit.
    pub open spec fn can_take(self, more: nat) -> bool {
        forall|a: usize| #[trigger] self.counts.contains_key(a) ==> self.counts[a] + more <= usize::MAX
    }

    /// The window once its oldest element has left.
    pub open spec fn popped(self) -> Self {
        WindowState {
            queue: self.queue.drop_first(),
            counts: one_less(self.counts, self.queue.first().1.author),
        }
    }

    /// Elements commit, the oldest first, for as long as at least `need` proposers are in the window.
    pub open spec fn drained(self, need: nat) -> Drained
        decreases self.queue.len(),
    {
        if self.counts.dom().len() < need {
            Drained { committed: Seq::empty(), rest: self, stuck: false }
        } else if self.queue.len() == 0 {
            Drained { committed: Seq::empty(), rest: self, stuck: true }
        } else if !self.counts.contains_key(self.queue.first().1.author) {
            Drained {
                committed: Seq::empty(),
                rest: WindowState { counts: self.counts, ..self.popped() },
                stuck: true,
            }
        } else {
            let tail = self.popped().drained(need);
            Drained { committed: seq![self.queue.first()].add(tail.committed), ..tail }
        }
    }
}

/// A window of undecided elements.
pub struct CommitWindow {
    queue: LinkedHashMap<Digest, Link>,
    counts: LinkedHashMap<usize, usize>,
}

impl CommitWindow {
    pub closed spec fn view(&self) -> WindowState {
        WindowState { queue: link_items(self.queue), counts: count_items(self.counts) }
    }

    pub fn new() -> (r: Self)
        ensures
            r@ == WindowState::empty(),
    {
        let r = CommitWindow { queue: links_new(), counts: counts_new() };
        assert(r@.counts =~= Map::empty());
        r
    }

    /// The digest of the entry queued last.
    pub fn back(&self) -> (r: Option<Digest>)
        ensures
            r == (if self@.queue.len() == 0 {
                None
            } else {
                Some(self@.queue.last().0)
            }),
    {
        match links_back(&self.queue) {
            Some(e) => Some(e.0),
            None => None,
        }
    }

    /// The link queued under a digest.
    pub fn get(&self, hash: &Digest) -> (r: Option<Link>)
        ensures
            r == find(self@.queue, *hash),
    {
        links_get(&self.queue, hash)
    }

    /// Whether one more proposal of this proposer can be counted.
    pub fn can_count(&self, author: usize) -> (r: bool)
        ensures
            r == (count_of(self@.counts, author) < usize::MAX),
    {
        match counts_get(&self.counts, author) {
            Some(n) => n < usize::MAX,
            None => true,
        }
    }

    /// Queues an element and counts its proposer.
    pub fn record(&mut self, hash: Digest, link: Link)
        requires
            count_of(old(self)@.counts, link.author) < usize::MAX,
        ensures
            final(self)@ == old(self)@.recorded(hash, link),
            old(self)@.counted() ==> final(self)@.counted(),
    {
        let n: usize = match counts_get(&self.counts, link.author) {
            Some(n) => n,
            None => 0,
        };
        counts_insert(&mut self.counts, link.author, n + 1);
        links_insert(&mut self.queue, hash, link);
    }

    /// Whether that many more elements can be counted.
    pub fn can_take(&self, more: usize) -> (r: bool)
        ensures
            r == self@.can_take(more as nat),
    {
        let keys = counts_keys(&self.counts);
        let mut i: usize = 0;
        while i < keys.len()
            invariant
                i <= keys@.len(),
                keys@.to_set() == self@.counts.dom(),
                forall|j: int| 0 <= j < i ==> self@.counts[#[trigger] keys@[j]] + more <= usize::MAX,
            decreases keys@.len() - i,
        {
            let k: usize = keys[i];
            assert(keys@.to_set().contains(k));
            if let Some(n) = counts_get(&self.counts, k) {
                if n > usize::MAX - more {
                    assert(self@.counts.contains_key(k));
                    return false;
                }
            }
            i += 1;
        }
        assert forall|a: usize| #[trigger] self@.counts.contains_key(a) implies self@.counts[a] + more <= usize::MAX by {
            assert(keys@.to_set().contains(a));
            let j = choose|j: int| 0 <= j < keys@.len() && keys@[j] == a;
            assert(keys@[j] == a);
        }
        true
    }

    /// The number of entries.
    pub fn len(&self) -> (r: usize)
        ensures
            r == self@.queue.len(),
    {
        links_entries(&self.queue).len()
    }

    /// Queues and counts the elements of another window, the one queued there last first.
    pub fn record_reversed(&mut self, other: &CommitWindow)
        requires
            old(self)@.can_take(other@.queue.len()),
        ensures
            final(self)@ == old(self)@.recorded_all(other@.queue.reverse()),
            old(self)@.counted() ==> final(self)@.counted(),
    {
        let entries = links_entries(&other.queue);
        let ghost all = entries@.reverse();
        let mut i: usize = 0;
        assert(all.take(0) =~= Seq::empty());
        while i < entries.len()
            invariant
                i <= entries@.len() == all.len(),
                entries@ == other@.queue,
                all == entries@.reverse(),
                self@ == old(self)@.recorded_all(all.take(i as int)),
                forall|a: usize| #[trigger] self@.counts.contains_key(a) ==> self@.counts[a] <= count_of(
                    old(self)@.counts,
                    a,
                ) + i,
                old(self)@.can_take(entries@.len()),
                old(self)@.counted() ==> self@.counted(),
            decreases entries@.len() - i,
        {
            let e: (Digest, Link) = entries[entries.len() - 1 - i];
            assert(all.take(i as int + 1).drop_last() =~= all.take(i as int));
            assert(all.take(i as int + 1).last() == e);
            assert(self@.counts.contains_key(e.1.author) ==> self@.counts[e.1.author] <= count_of(
                old(self)@.counts,
                e.1.author,
            ) + i);
            assert(old(self)@.counts.contains_key(e.1.author) ==> old(self)@.counts[e.1.author] + entries@.len()
                <= usize::MAX);
            self.record(e.0, e.1);
            i += 1;
        }
        assert(all.take(i as int) =~= all);
    }

    /// Lets elements commit, the oldest entry first, for as long as at least `need` proposers are in
    /// the window. The second result tells that the window ran out of counted elements before that.
    pub fn drain(&mut self, need: usize) -> (r: (Vec<(Digest, Link)>, bool))
        requires
            old(self)@.counted(),
        ensures
            ({
                let d = old(self)@.drained(need as nat);
                &&& r.0@ == d.committed
                &&& r.1 == d.stuck
                &&& final(self)@ == d.rest
            }),
            final(self)@.counted(),
    {
        let mut out: Vec<(Digest, Link)> = Vec::new();
        let ghost start = self@;
        proof {
            let d = start.drained(need as nat);
            assert(seq![].add(d.committed) =~= d.committed);
            assert(out@ =~= seq![]);
        }
        loop
            invariant
                start == old(self)@,
                self@.counted(),
                ({
                    let d = start.drained(need as nat);
                    let t = self@.drained(need as nat);
                    &&& d.committed == out@.add(t.committed)
                    &&& d.rest == t.rest
                    &&& d.stuck == t.stuck
                }),
            decreases self@.queue.len(),
        {
            let ghost before = self@;
            let ghost t = before.drained(need as nat);
            if counts_len(&self.counts) < need {
                assert(out@.add(t.committed) =~= out@);
                return (out, false);
            }
            let e: (Digest, Link) = match links_pop_front(&mut self.queue) {
                Some(e) => e,
                None => {
                    assert(out@.add(t.committed) =~= out@);
                    return (out, true);
                },
            };
            let author: usize = e.1.author;
            let count: usize = match counts_get(&self.counts, author) {
                Some(n) => n,
                None => {
                    assert(out@.add(t.committed) =~= out@);
                    assert(self@ =~= t.rest);
                    return (out, true);
                },
            };
            assert(before.counts.contains_key(author));
            if count == 1 {
                counts_remove(&mut self.counts, author);
            } else {
                counts_insert(&mut self.counts, author, count - 1);
            }
            proof {
                assert(self@ =~= before.popped());
                let u = self@.drained(need as nat);
                assert(out@.add(t.committed) =~= out@.push(e).add(u.committed));
            }
            out.push(e);
        }
    }
}

/// How far the walk down from a new head has come.
pub struct Walk {
    /// The element to look at next.
    pub head: Option<Link>,
    /// The digest that it is known by.
    pub head_hash: Digest,
    /// The elements passed on the way.
    pub local: CommitWindow,
    /// Whether the walk met the element that was queued last.
    pub connected: bool,
}

/// What there is to know of a walk.
#[verifier::ext_equal]
pub struct WalkState {
    pub head: Option<Link>,
    pub head_hash: Digest,
    pub local: WindowState,
    pub connected: bool,
}

/// What a walk needs next.
pub enum WalkStep {
    /// Another step.
    Continue,
    /// The element of this digest, from storage.
    Read(Digest),
    /// Nothing: the walk is over.
    Done,
}

impl Walk {
    pub open spec fn view(&self) -> WalkState {
        WalkState {
            head: self.head,
            head_hash: self.head_hash,
            local: self.local@,
            connected: self.connected,
        }
    }

    /// A walk that starts at an element.
    pub fn new(head_hash: Digest, head: Link) -> (r: Self)
        ensures
            r@ == WalkState::start(head_hash, head),
    {
        Walk { head: Some(head), head_hash, local: CommitWindow::new(), connected: false }
    }

    /// Whether the next step can count its element.
    pub fn can_step(&self) -> (r: bool)
        ensures
            r == self@.can_step(),
    {
        match &self.head {
            Some(h) => self.local.can_count(h.author),
            None => true,
        }
    }
}

impl WalkState {
    pub open spec fn start(head_hash: Digest, head: Link) -> Self {
        WalkState { head: Some(head), head_hash, local: WindowState::empty(), connected: false }
    }

    /// No counter is at the machine's limit.
    pub open spec fn can_step(self) -> bool {
        self.head matches Some(h) ==> count_of(self.local.counts, h.author) < usize::MAX
    }
}

impl WindowState {
    /// One step of the walk down from a new head, where `highest` has committed last: the walk ends
    /// at what has committed, at the element queued last, or at an element that cannot be had; every
    /// other element is recorded.
    pub open spec fn stepped(self, w: WalkState, highest_hash: Digest, highest_round: u64) -> (WalkState, WalkStep) {
        let stopped = WalkState { head: None, ..w };
        match w.head {
            None => (w, WalkStep::Done),
            Some(h) => if h.round <= highest_round {
                (stopped, WalkStep::Done)
            } else if self.queue.len() > 0 && self.queue.last().0 == w.head_hash {
                (WalkState { connected: true, ..stopped }, WalkStep::Done)
            } else if w.head_hash == highest_hash {
                (stopped, WalkStep::Done)
            } else {
                let local = w.local.recorded(w.head_hash, h);
                let known = if find(local.queue, h.parent) is Some {
                    find(local.queue, h.parent)
                } else {
                    find(self.queue, h.parent)
                };
                (
                    WalkState { head: known, head_hash: h.parent, local, ..w },
                    if known is Some {
                        WalkStep::Continue
                    } else {
                        WalkStep::Read(h.parent)
                    },
                )
            },
        }
    }
}

impl CommitWindow {
    /// Takes one step of a walk.
    pub fn step(&self, walk: &mut Walk, highest_hash: &Digest, highest_round: u64) -> (r: WalkStep)
        requires
            old(walk)@.can_step(),
        ensures
            (final(walk)@, r) == self@.stepped(old(walk)@, *highest_hash, highest_round),
            old(walk)@.local.counted() ==> final(walk)@.local.counted(),
    {
        let head: Link = match walk.head {
            None => {
                return WalkStep::Done;
            },
            Some(h) => h,
        };
        walk.head = None;
        if head.round <= highest_round {
            return WalkStep::Done;
        }
        if let Some(back) = self.back() {
            if same_digest(&back, &walk.head_hash) {
                walk.connected = true;
                return WalkStep::Done;
            }
        }
        if same_digest(&walk.head_hash, highest_hash) {
            return WalkStep::Done;
        }
        walk.local.record(walk.head_hash, head);
        walk.head_hash = head.parent;
        walk.head = walk.local.get(&head.parent);
        if walk.head.is_none() {
            walk.head = self.get(&head.parent);
        }
        if walk.head.is_some() {
            WalkStep::Continue
        } else {
            WalkStep::Read(head.parent)
        }
    }
}

impl Walk {
    /// Hands the walk the element it asked for, if storage has it; without it the walk is over.
    pub fn supply(&mut self, found: Option<Link>) -> (r: WalkStep)
        ensures
            final(self)@ == (WalkState { head: found, ..old(self)@ }),
            r == (if found is Some {
                WalkStep::Continue
            } else {
                WalkStep::Done
            }),
    {
        self.head = found;
        if self.head.is_some() {
            WalkStep::Continue
        } else {
            WalkStep::Done
        }
    }
}

/// The elements that a round commits.
pub struct CommitRun {
    /// In the order they commit, each with the digest it was queued under.
    pub committed: Vec<(Digest, Link)>,
    /// The window claims a quorum but has no counted element to commit: its counters are off.
    pub exhausted: bool,
}

/// How often a proposer occurs in a queue.
pub open spec fn occurrences(queue: Seq<(Digest, Link)>, author: usize) -> nat
    decreases queue.len(),
{
    if queue.len() == 0 {
        0
    } else {
        occurrences(queue.drop_last(), author) + if queue.last().1.author == author {
            1nat
        } else {
            0nat
        }
    }
}

impl WindowState {
    /// The counters count the queue.
    pub open spec fn matched(self) -> bool {
        &&& self.counts.dom().finite()
        &&& forall|a: usize| #[trigger] self.counts.contains_key(a) <==> occurrences(self.queue, a) > 0
        &&& forall|a: usize| #[trigger] self.counts.contains_key(a) ==> self.counts[a] == occurrences(self.queue, a)
    }
}

proof fn lemma_occurrences_first(queue: Seq<(Digest, Link)>, author: usize)
    requires
        queue.len() > 0,
    ensures
        occurrences(queue, author) == occurrences(queue.drop_first(), author) + if queue.first().1.author == author {
            1nat
        } else {
            0nat
        },
    decreases queue.len(),
{
    if queue.len() > 1 {
        lemma_occurrences_first(queue.drop_last(), author);
        assert(queue.drop_last().drop_first() =~= queue.drop_first().drop_last());
    } else {
        assert(queue.drop_last() =~= queue.drop_first());
    }
}

/// Where the counters count the queue, they still do after an element has committed.
pub proof fn lemma_popped_matched(w: WindowState)
    requires
        w.matched(),
        w.queue.len() > 0,
    ensures
        w.counts.contains_key(w.queue.first().1.author),
        w.popped().matched(),
{
    let out = w.queue.first().1.author;
    let p = w.popped();
    assert forall|a: usize| occurrences(w.queue, a) == #[trigger] occurrences(p.queue, a) + if out == a {
        1nat
    } else {
        0nat
    } by {
        lemma_occurrences_first(w.queue, a);
    }
    assert(occurrences(w.queue, out) == occurrences(p.queue, out) + 1);
    assert(w.counts.contains_key(out));
    assert forall|a: usize| #[trigger] p.counts.contains_key(a) <==> occurrences(p.queue, a) > 0 by {
        assert(w.counts.contains_key(a) <==> occurrences(w.queue, a) > 0);
    }
    assert forall|a: usize| #[trigger] p.counts.contains_key(a) implies p.counts[a] == occurrences(p.queue, a) by {
        assert(w.counts.contains_key(a));
    }
}

/// Draining leaves fewer proposers than were needed, unless the window ran out of counted
/// elements; and it only takes elements off the old end of the queue.
pub proof fn law_drain_stops_below_quorum(w: WindowState, need: nat)
    ensures
        ({
            let d = w.drained(need);
            &&& !d.stuck ==> d.rest.counts.dom().len() < need
            &&& !d.stuck ==> d.committed.add(d.rest.queue) == w.queue
        }),
    decreases w.queue.len(),
{
    let d = w.drained(need);
    if w.counts.dom().len() >= need && w.queue.len() > 0 && w.counts.contains_key(w.queue.first().1.author) {
        law_drain_stops_below_quorum(w.popped(), need);
        let t = w.popped().drained(need);
        if !d.stuck {
            let front = seq![w.queue.first()];
            assert(d.committed.add(d.rest.queue) =~= front.add(t.committed.add(t.rest.queue)));
            assert(front.add(w.queue.drop_first()) =~= w.queue);
        }
    } else {
        assert(d.committed.add(d.rest.queue) =~= d.rest.queue);
    }
}

/// A window whose counters count its queue never runs out of elements before its proposers are
/// below the quorum, and its counters still count the queue afterwards.
pub proof fn law_matched_window_never_stuck(w: WindowState, need: nat)
    requires
        w.matched(),
        need >= 1,
    ensures
        !w.drained(need).stuck,
        w.drained(need).rest.matched(),
    decreases w.queue.len(),
{
    if w.counts.dom().len() >= need {
        let a = w.counts.dom().choose();
        assert(w.counts.dom().contains(a));
        assert(w.counts.contains_key(a));
        assert(occurrences(w.queue, a) > 0);
        assert(w.queue.len() > 0);
        lemma_popped_matched(w);
        law_matched_window_never_stuck(w.popped(), need);
    }
}

/// The proposers of the elements of a queue.
pub open spec fn proposers(queue: Seq<(Digest, Link)>) -> Set<usize> {
    Set::new(|a: usize| occurrences(queue, a) > 0)
}

/// Every element that commits has a quorum of proposers, each of which made it or an element queued
/// after it; what stays has not.
pub proof fn law_commits_have_quorum(w: WindowState, need: nat)
    requires
        w.matched(),
        need >= 1,
    ensures
        ({
            let d = w.drained(need);
            &&& forall|i: int|
                0 <= i < d.committed.len() ==> proposers(#[trigger] w.queue.skip(i)).len() >= need
            &&& proposers(d.rest.queue).len() < need
        }),
    decreases w.queue.len(),
{
    let d = w.drained(need);
    assert(proposers(w.queue) =~= w.counts.dom());
    if w.counts.dom().len() >= need {
        law_matched_window_never_stuck(w, need);
        lemma_popped_matched(w);
        let p = w.popped();
        law_commits_have_quorum(p, need);
        law_drain_stops_below_quorum(w, need);
        assert(d.committed.add(d.rest.queue).len() == w.queue.len());
        assert forall|i: int| 0 <= i < d.committed.len() implies proposers(#[trigger] w.queue.skip(i)).len() >= need by {
            if i == 0 {
                assert(w.queue.skip(0) =~= w.queue);
            } else {
                assert(p.queue.skip(i - 1) =~= w.queue.skip(i));
            }
        }
    }
}

/// Any two commit quorums share at least `num_faults` nodes, and one more where
/// `num_nodes + num_faults` is odd: so it is with `3 * num_faults + 1` nodes.
pub proof fn law_quorums_overlap(num_nodes: usize, num_faults: usize)
    ensures
        2 * spec_commit_len(num_nodes, num_faults) - num_nodes >= num_faults,
        2 * spec_commit_len(num_nodes, num_faults) <= num_nodes + num_faults + 1,
        (num_nodes + num_faults) % 2 == 1 ==> 2 * spec_commit_len(num_nodes, num_faults) - num_nodes
            >= num_faults + 1,
        num_nodes == 3 * num_faults + 1 ==> spec_commit_len(num_nodes, num_faults) == 2 * num_faults + 1,
        num_nodes == 3 * num_faults + 1 ==> 2 * spec_commit_len(num_nodes, num_faults) - num_nodes
            >= num_faults + 1,
{
}

/// Taking out a key that no entry has changes nothing.
pub proof fn lemma_without_absent(s: Seq<(Digest, Link)>, k: Digest)
    requires
        !has_key(s, k),
    ensures
        without(s, k) == s,
    decreases s.len(),
{
    if s.len() > 0 {
        let rest = s.drop_last();
        assert(s[s.len() - 1].0 != k);
        assert forall|i: int| 0 <= i < rest.len() implies (#[trigger] rest[i]).0 != k by {
            assert(s[i].0 != k);
        }
        lemma_without_absent(rest, k);
        assert(rest.push(s.last()) =~= s);
    }
}

/// An element that is not in the window yet goes to its end, and the counters of a window that
/// counts its queue go on counting it.
pub proof fn law_new_element_is_appended(w: WindowState, hash: Digest, link: Link)
    requires
        !has_key(w.queue, hash),
        w.matched(),
        occurrences(w.queue, link.author) < usize::MAX,
    ensures
        w.recorded(hash, link).queue == w.queue.push((hash, link)),
        w.recorded(hash, link).matched(),
{
    lemma_without_absent(w.queue, hash);
    let r = w.recorded(hash, link);
    assert(r.queue.drop_last() =~= w.queue);
    assert forall|a: usize| #[trigger] r.counts.contains_key(a) <==> occurrences(r.queue, a) > 0 by {
        assert(w.counts.contains_key(a) <==> occurrences(w.queue, a) > 0);
    }
    assert forall|a: usize| #[trigger] r.counts.contains_key(a) implies r.counts[a] == occurrences(r.queue, a) by {
        assert(w.counts.contains_key(a) <==> occurrences(w.queue, a) > 0);
    }
}

/// No two entries have the same key.
pub open spec fn distinct_keys(queue: Seq<(Digest, Link)>) -> bool {
    forall|i: int, j: int| 0 <= i < j < queue.len() ==> (#[trigger] queue[i]).0 != (#[trigger] queue[j]).0
}

proof fn lemma_occurrences_add(a: Seq<(Digest, Link)>, b: Seq<(Digest, Link)>, author: usize)
    ensures
        occurrences(a.add(b), author) == occurrences(a, author) + occurrences(b, author),
        occurrences(b, author) <= b.len(),
    decreases b.len(),
{
    if b.len() > 0 {
        lemma_occurrences_add(a, b.drop_last(), author);
        assert(a.add(b).drop_last() =~= a.add(b.drop_last()));
    } else {
        assert(a.add(b) =~= a);
    }
}

/// New elements go to the end of the window in their order, and the counters of a window that counts
/// its queue go on counting it.
pub proof fn law_new_elements_are_appended(w: WindowState, entries: Seq<(Digest, Link)>)
    requires
        w.matched(),
        distinct_keys(w.queue.add(entries)),
        w.can_take(entries.len()),
        entries.len() <= usize::MAX,
    ensures
        w.recorded_all(entries).queue == w.queue.add(entries),
        w.recorded_all(entries).matched(),
    decreases entries.len(),
{
    let all = w.queue.add(entries);
    if entries.len() > 0 {
        let rest = entries.drop_last();
        let (hash, link) = entries.last();
        assert(all.drop_last() =~= w.queue.add(rest));
        assert forall|i: int, j: int| 0 <= i < j < w.queue.add(rest).len() implies (#[trigger] w.queue.add(rest)[i]).0
            != (#[trigger] w.queue.add(rest)[j]).0 by {
            assert(all[i].0 != all[j].0);
        }
        assert forall|a: usize| #[trigger] w.counts.contains_key(a) implies w.counts[a] + rest.len() <= usize::MAX by {}
        law_new_elements_are_appended(w, rest);
        let r = w.recorded_all(rest);
        assert(!has_key(r.queue, hash)) by {
            if has_key(r.queue, hash) {
                let i = choose|i: int| 0 <= i < r.queue.len() && (#[trigger] r.queue[i]).0 == hash;
                assert(all[i].0 == r.queue[i].0);
                assert(all[i].0 != all[all.len() - 1].0);
            }
        }
        lemma_occurrences_add(w.queue, rest, link.author);
        assert(w.counts.contains_key(link.author) <==> occurrences(w.queue, link.author) > 0);
        law_new_element_is_appended(r, hash, link);
        assert(r.queue.push((hash, link)) =~= all);
    } else {
        assert(all =~= w.queue);
    }
}

/// Queueing an element counts its proposer once more and makes it the last entry. An entry of the same
/// digest leaves for it, and the others keep their order.
pub proof fn law_recording_counts_once_more(w: WindowState, hash: Digest, link: Link, other: usize)
    requires
        other != link.author,
        w.counts.contains_key(link.author) ==> w.counts[link.author] < usize::MAX,
    ensures
        ({
            let e = w.recorded(hash, link);
            &&& e.queue == without(w.queue, hash).push((hash, link))
            &&& !has_key(w.queue, hash) ==> e.queue == w.queue.push((hash, link))
            &&& e.counts.contains_key(link.author)
            &&& w.counts.contains_key(link.author) ==> e.counts[link.author] == w.counts[link.author] + 1
            &&& !w.counts.contains_key(link.author) ==> e.counts[link.author] == 1
            &&& e.counts.contains_key(other) == w.counts.contains_key(other)
            &&& w.counts.contains_key(other) ==> e.counts[other] == w.counts[other]
        }),
{
    if !has_key(w.queue, hash) {
        lemma_without_absent(w.queue, hash);
    }
}

/// Several elements are queued one after the other, and an empty window has none.
pub proof fn law_recording_goes_in_order(w: WindowState, entries: Seq<(Digest, Link)>, hash: Digest, link: Link)
    ensures
        w.recorded_all(Seq::<(Digest, Link)>::empty()) == w,
        w.recorded_all(entries.push((hash, link))) == w.recorded_all(entries).recorded(hash, link),
        WindowState::empty().queue.len() == 0,
        WindowState::empty().counts.dom() == Set::<usize>::empty(),
{
    assert(entries.push((hash, link)).drop_last() =~= entries);
}

/// The oldest element commits as long as so many proposers are in the window, and takes one count of its
/// proposer with it; with fewer, nothing does. A window that claims the proposers but has no counted
/// element is stuck.
pub proof fn law_oldest_element_commits(w: WindowState, need: nat)
    ensures
        ({
            let d = w.drained(need);
            let author = w.queue.first().1.author;
            let left = WindowState {
                queue: w.queue.drop_first(),
                counts: if w.counts[author] == 1 {
                    w.counts.remove(author)
                } else {
                    w.counts.insert(author, (w.counts[author] - 1) as usize)
                },
            };
            let enough = w.counts.dom().len() >= need;
            let counted = w.queue.len() > 0 && w.counts.contains_key(author);
            &&& !enough ==> d.committed.len() == 0 && !d.stuck && d.rest == w
            &&& enough && counted ==> d.committed == seq![w.queue.first()].add(left.drained(need).committed)
            &&& enough && counted ==> d.rest == left.drained(need).rest && d.stuck == left.drained(need).stuck
            &&& enough && !counted ==> d.committed.len() == 0 && d.stuck
        }),
{
}

/// A proposer counts as often as it proposed an entry of the queue.
pub proof fn law_occurrences_count_entries(queue: Seq<(Digest, Link)>, entry: (Digest, Link), author: usize)
    ensures
        occurrences(Seq::<(Digest, Link)>::empty(), author) == 0,
        entry.1.author == author ==> occurrences(queue.push(entry), author) == occurrences(queue, author) + 1,
        entry.1.author != author ==> occurrences(queue.push(entry), author) == occurrences(queue, author),
        proposers(queue).contains(author) <==> occurrences(queue, author) > 0,
{
    assert(queue.push(entry).drop_last() =~= queue);
}

/// A step that passes an element records it and looks for its parent: among the elements passed and then
/// in the window, and in storage only if it is in neither.
pub proof fn law_passed_element_leads_to_its_parent(
    window: WindowState,
    w: WalkState,
    highest_hash: Digest,
    highest_round: u64,
)
    requires
        w.head is Some,
        w.head->0.round > highest_round,
        w.head_hash != highest_hash,
        window.queue.len() > 0 ==> window.queue.last().0 != w.head_hash,
    ensures
        ({
            let (next, step) = window.stepped(w, highest_hash, highest_round);
            let h = w.head->0;
            let passed = w.local.recorded(w.head_hash, h);
            let here = (exists|i: int| 0 <= i < passed.queue.len() && (#[trigger] passed.queue[i]).0 == h.parent) || exists|
                i: int,
            | 0 <= i < window.queue.len() && (#[trigger] window.queue[i]).0 == h.parent;
            &&& next.local == passed
            &&& next.head_hash == h.parent
            &&& next.connected == w.connected
            &&& here ==> step is Continue && next.head is Some
            &&& !here ==> step == WalkStep::Read(h.parent) && next.head is None
            &&& next.head matches Some(link) ==> (exists|i: int|
                0 <= i < passed.queue.len() && (#[trigger] passed.queue[i]) == (h.parent, link)) || exists|i: int|
                0 <= i < window.queue.len() && (#[trigger] window.queue[i]) == (h.parent, link)
        }),
{
    let h = w.head->0;
    let passed = w.local.recorded(w.head_hash, h);
    let (next, step) = window.stepped(w, highest_hash, highest_round);
    if has_key(passed.queue, h.parent) {
        law_entries_without_a_key(passed.queue, (h.parent, h), h.parent);
        assert(passed.queue.contains((h.parent, next.head->0)));
    } else if has_key(window.queue, h.parent) {
        law_entries_without_a_key(window.queue, (h.parent, h), h.parent);
        assert(window.queue.contains((h.parent, next.head->0)));
    }
}

/// A walk starts at its head, with nothing passed.
pub proof fn law_walk_starts_at_its_head(hash: Digest, head: Link)
    ensures
        ({
            let w = WalkState::start(hash, head);
            &&& w.head == Some(head) && w.head_hash == hash && !w.connected
            &&& w.local.queue.len() == 0 && w.local.counts.dom() == Set::<usize>::empty()
            &&& w.can_step()
        }),
{
}

/// A step can be counted unless the proposer's counter is at the machine's limit.
pub proof fn law_only_the_limit_stops_a_step(w: WalkState)
    ensures
        w.can_step() <==> !(w.head is Some && w.local.counts.contains_key((w.head->0).author) && w.local.counts[(
        w.head->0).author] == usize::MAX),
{
}

} // verus!
