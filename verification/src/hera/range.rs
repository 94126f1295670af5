//! Serving the elements of a range of rounds.
use crate::digest::{same_digest, Digest};
use crate::hera::types::SigElement;
use crate::types::share;
use std::sync::Arc;
use vstd::prelude::*;

verus! {

/// No more elements than this are sent in answer to one request.
pub const MAX_RANGE_RESPONSE: usize = 1024;

/// The walk down from the highest element, collecting what is in range.
pub struct RangeWalk {
    from_round: u64,
    to_round: u64,
    cur_hash: Digest,
    elements: Vec<Arc<SigElement>>,
}

/// What there is to know of a walk.
#[verifier::ext_equal]
pub struct RangeState {
    pub from_round: u64,
    pub to_round: u64,
    /// The digest that the walk stands at.
    pub cur_hash: Digest,
    /// What has been collected, highest round first.
    pub elements: Seq<Arc<SigElement>>,
}

/// What a walk needs next.
#[derive(Clone, Copy)]
pub enum RangeStep {
    /// The element of this digest.
    Read(Digest),
    /// Nothing: the walk is over.
    Done,
}

/// The store has the child's parent, and it is this one.
pub open spec fn is_parent(
    store: Map<Digest, Arc<SigElement>>,
    parent: Arc<SigElement>,
    child: Arc<SigElement>,
) -> bool {
    store.contains_key(child.proposal.block.parent_hash) && store[child.proposal.block.parent_hash] == parent
}

impl RangeState {
    pub open spec fn start(from_round: u64, to_round: u64, highest_hash: Digest) -> Self {
        RangeState { from_round, to_round, cur_hash: highest_hash, elements: Seq::empty() }
    }

    /// The walk once it has looked at the element it stands at: that one is collected if its round
    /// is in range, and the walk goes on to its parent, unless the range or the limit is reached or
    /// there is no other element below.
    pub open spec fn stepped(self, element: Arc<SigElement>) -> (Self, RangeStep) {
        let round = element.proposal.round;
        let parent = element.proposal.block.parent_hash;
        let kept = if self.from_round <= round <= self.to_round {
            self.elements.push(element)
        } else {
            self.elements
        };
        if round < self.from_round || kept.len() >= MAX_RANGE_RESPONSE || round == 0 || parent == self.cur_hash {
            (RangeState { elements: kept, ..self }, RangeStep::Done)
        } else {
            (RangeState { elements: kept, cur_hash: parent, ..self }, RangeStep::Read(parent))
        }
    }

    /// The walk over the elements of a store, to its end or for so many steps.
    pub open spec fn walked(self, store: Map<Digest, Arc<SigElement>>, steps: nat) -> Self
        decreases steps,
    {
        if steps == 0 || !store.contains_key(self.cur_hash) {
            self
        } else {
            let (next, step) = self.stepped(store[self.cur_hash]);
            match step {
                RangeStep::Done => next,
                RangeStep::Read(_) => next.walked(store, (steps - 1) as nat),
            }
        }
    }

    /// What has been collected is in range, within the limit, and each element is the parent of the
    /// one before it.
    pub open spec fn in_order(self, store: Map<Digest, Arc<SigElement>>) -> bool {
        let e = self.elements;
        &&& e.len() <= MAX_RANGE_RESPONSE
        &&& forall|i: int| 0 <= i < e.len() ==> self.from_round <= (#[trigger] e[i]).proposal.round <= self.to_round
        &&& forall|i: int, j: int| 0 <= i < j < e.len() ==> (#[trigger] e[i]).proposal.round > (
        #[trigger] e[j]).proposal.round
        &&& forall|i: int, j: int| 0 <= i && j == i + 1 && j < e.len() ==> is_parent(
            store,
            #[trigger] e[j],
            #[trigger] e[i],
        )
    }
}

impl RangeWalk {
    pub closed spec fn view(&self) -> RangeState {
        RangeState {
            from_round: self.from_round,
            to_round: self.to_round,
            cur_hash: self.cur_hash,
            elements: self.elements@,
        }
    }

    /// A walk for the rounds from `from_round` to `to_round`; none if the highest element is below.
    pub fn begin(from_round: u64, to_round: u64, highest_hash: Digest, highest_round: u64) -> (r: Option<Self>)
        ensures
            match r {
                None => highest_round < from_round,
                Some(w) => highest_round >= from_round && w@ == RangeState::start(from_round, to_round, highest_hash),
            },
    {
        if highest_round < from_round {
            return None;
        }
        let w = RangeWalk { from_round, to_round, cur_hash: highest_hash, elements: Vec::new() };
        assert(w@ =~= RangeState::start(from_round, to_round, highest_hash));
        Some(w)
    }

    /// Looks at the element that the walk stands at.
    pub fn step(&mut self, element: &Arc<SigElement>) -> (r: RangeStep)
        ensures
            (final(self)@, r) == old(self)@.stepped(*element),
    {
        let round: u64 = element.proposal.round;
        if round < self.from_round {
            return RangeStep::Done;
        }
        if round <= self.to_round {
            self.elements.push(share(element));
        }
        if self.elements.len() >= MAX_RANGE_RESPONSE || round == 0 {
            return RangeStep::Done;
        }
        let parent: Digest = element.proposal.block.parent_hash;
        if same_digest(&parent, &self.cur_hash) {
            return RangeStep::Done;
        }
        self.cur_hash = parent;
        RangeStep::Read(parent)
    }

    /// The elements to send, lowest round first; nothing is sent if there are none.
    pub fn finish(self) -> (r: Option<Vec<Arc<SigElement>>>)
        ensures
            match r {
                None => self@.elements.len() == 0,
                Some(v) => self@.elements.len() > 0 && v@ == self@.elements.reverse(),
            },
    {
        if self.elements.len() == 0 {
            return None;
        }
        let mut out: Vec<Arc<SigElement>> = Vec::new();
        let mut i: usize = self.elements.len();
        let ghost all = self.elements@;
        while i > 0
            invariant
                i <= all.len(),
                all == self.elements@,
                out@ =~= all.skip(i as int).reverse(),
            decreases i,
        {
            i -= 1;
            out.push(share(&self.elements[i]));
            assert(out@ =~= all.skip(i as int).reverse());
        }
        assert(all.skip(0) =~= all);
        Some(out)
    }
}

/// A store of elements in which every element is of a later round than its parent.
pub open spec fn is_forest(store: Map<Digest, Arc<SigElement>>) -> bool {
    forall|d: Digest| #[trigger]
        store.contains_key(d) && store.contains_key(store[d].proposal.block.parent_hash)
            ==> store[store[d].proposal.block.parent_hash].proposal.round < store[d].proposal.round
}

proof fn lemma_walk_in_order(w: RangeState, store: Map<Digest, Arc<SigElement>>, steps: nat)
    requires
        is_forest(store),
        w.in_order(store),
        w.elements.len() < MAX_RANGE_RESPONSE,
        w.elements.len() > 0 ==> w.elements.last().proposal.block.parent_hash == w.cur_hash && exists|d: Digest|
            #[trigger] store.contains_key(d) && store[d] == w.elements.last(),
    ensures
        w.walked(store, steps).in_order(store),
        w.walked(store, steps).from_round == w.from_round,
        w.walked(store, steps).to_round == w.to_round,
    decreases steps,
{
    if steps > 0 && store.contains_key(w.cur_hash) {
        let element = store[w.cur_hash];
        let (next, step) = w.stepped(element);
        let e = w.elements;
        let k = next.elements;
        if e.len() > 0 {
            let d = choose|d: Digest| #[trigger] store.contains_key(d) && store[d] == e.last();
            assert(store[store[d].proposal.block.parent_hash].proposal.round < store[d].proposal.round);
            assert(element.proposal.round < e.last().proposal.round);
            assert(e[e.len() - 1].proposal.round <= w.to_round);
        }
        assert forall|i: int, j: int| 0 <= i < j < k.len() implies (#[trigger] k[i]).proposal.round > (
        #[trigger] k[j]).proposal.round by {
            if j == e.len() {
                assert(k[i] == e[i]);
                assert(i == e.len() - 1 || e[i].proposal.round > e[e.len() - 1].proposal.round);
            }
        }
        assert forall|i: int, j: int| 0 <= i && j == i + 1 && j < k.len() implies is_parent(
            store,
            #[trigger] k[j],
            #[trigger] k[i],
        ) by {
            if j == e.len() {
                assert(k[i] == e.last());
            } else {
                assert(k[i] == e[i] && k[j] == e[j]);
            }
        }
        assert forall|i: int| 0 <= i < k.len() implies next.from_round <= (#[trigger] k[i]).proposal.round
            <= next.to_round by {
            if i < e.len() {
                assert(k[i] == e[i]);
            }
        }
        assert(next.in_order(store));
        if let RangeStep::Read(_) = step {
            if k.len() > 0 {
                if k.len() == e.len() {
                    // Below what has been collected every element is in range or ends the walk.
                    assert(element.proposal.round > w.to_round);
                    assert(false);
                }
                assert(k.last() == element);
                assert(store.contains_key(w.cur_hash) && store[w.cur_hash] == k.last());
            }
            lemma_walk_in_order(next, store, (steps - 1) as nat);
        }
    }
}

/// What a walk over a store sends is in range and within the limit, in increasing order of rounds,
/// and each element comes right after its parent: the receiver can store them one by one.
pub proof fn law_range_is_ascending(
    from_round: u64,
    to_round: u64,
    highest_hash: Digest,
    store: Map<Digest, Arc<SigElement>>,
    steps: nat,
)
    requires
        is_forest(store),
    ensures
        ({
            let up = RangeState::start(from_round, to_round, highest_hash).walked(store, steps).elements.reverse();
            &&& up.len() <= MAX_RANGE_RESPONSE
            &&& forall|i: int| 0 <= i < up.len() ==> from_round <= (#[trigger] up[i]).proposal.round <= to_round
            &&& forall|i: int, j: int| 0 <= i < j < up.len() ==> (#[trigger] up[i]).proposal.round < (
            #[trigger] up[j]).proposal.round
            &&& forall|i: int, j: int|
                0 <= i && j == i + 1 && j < up.len() ==> is_parent(store, #[trigger] up[i], #[trigger] up[j])
        }),
{
    let start = RangeState::start(from_round, to_round, highest_hash);
    lemma_walk_in_order(start, store, steps);
    let w = start.walked(store, steps);
    let e = w.elements;
    let up = e.reverse();
    assert forall|i: int| 0 <= i < up.len() implies #[trigger] up[i] == e[e.len() - 1 - i] by {}
    assert forall|i: int, j: int| 0 <= i < j < up.len() implies (#[trigger] up[i]).proposal.round < (
    #[trigger] up[j]).proposal.round by {
        assert(e[e.len() - 1 - j].proposal.round > e[e.len() - 1 - i].proposal.round);
    }
    assert forall|i: int| 0 <= i < up.len() implies from_round <= (#[trigger] up[i]).proposal.round <= to_round by {
        assert(e[e.len() - 1 - i].proposal.round <= w.to_round);
    }
    assert forall|i: int, j: int| 0 <= i && j == i + 1 && j < up.len() implies is_parent(
        store,
        #[trigger] up[i],
        #[trigger] up[j],
    ) by {
        let a = e.len() - 1 - j;
        assert(up[j] == e[a] && up[i] == e[a + 1]);
    }
}

/// A step keeps an element exactly if its round is in range, behind those that it has. It ends the walk
/// only below the range, at 1024 elements, at round 0 or at an element that is its own parent, and goes on
/// to the parent in any other case.
pub proof fn law_range_step(s: RangeState, element: Arc<SigElement>)
    ensures
        ({
            let (e, step) = s.stepped(element);
            let round = element.proposal.round;
            let parent = element.proposal.block.parent_hash;
            let ends = round < s.from_round || e.elements.len() >= 1024 || round == 0 || parent == s.cur_hash;
            &&& s.from_round <= round <= s.to_round ==> e.elements == s.elements.push(element)
            &&& !(s.from_round <= round <= s.to_round) ==> e.elements == s.elements
            &&& ends ==> step == RangeStep::Done && e.cur_hash == s.cur_hash
            &&& !ends ==> step == RangeStep::Read(parent) && e.cur_hash == parent
            &&& e.from_round == s.from_round && e.to_round == s.to_round
        }),
{
}

/// A walk starts at the highest element, with nothing.
pub proof fn law_range_start(from_round: u64, to_round: u64, highest_hash: Digest)
    ensures
        ({
            let s = RangeState::start(from_round, to_round, highest_hash);
            &&& s.cur_hash == highest_hash
            &&& s.from_round == from_round && s.to_round == to_round
            &&& s.elements.len() == 0
        }),
{
}

/// The ancestor of an element so many parents up, if all of them are in the store.
pub open spec fn ancestor(store: Map<Digest, Arc<SigElement>>, tip: Digest, n: nat) -> Option<Digest>
    decreases n,
{
    if !store.contains_key(tip) {
        None
    } else if n == 0 {
        Some(tip)
    } else {
        ancestor(store, store[tip].proposal.block.parent_hash, (n - 1) as nat)
    }
}

/// The rounds of ancestors fall.
proof fn lemma_ancestors_fall(store: Map<Digest, Arc<SigElement>>, tip: Digest, n: nat)
    requires
        is_forest(store),
        ancestor(store, tip, n) is Some,
    ensures
        store.contains_key(tip),
        store.contains_key(ancestor(store, tip, n)->0),
        store[ancestor(store, tip, n)->0].proposal.round + n <= store[tip].proposal.round,
    decreases n,
{
    if n > 0 {
        lemma_ancestors_fall(store, store[tip].proposal.block.parent_hash, (n - 1) as nat);
    }
}

proof fn lemma_elements_are_kept(s: RangeState, store: Map<Digest, Arc<SigElement>>, steps: nat, i: int)
    requires
        0 <= i < s.elements.len(),
    ensures
        s.walked(store, steps).elements.len() >= s.elements.len(),
        s.walked(store, steps).elements[i] == s.elements[i],
    decreases steps,
{
    if steps > 0 && store.contains_key(s.cur_hash) {
        let (next, step) = s.stepped(store[s.cur_hash]);
        assert(next.elements[i] == s.elements[i]);
        if let RangeStep::Read(_) = step {
            lemma_elements_are_kept(next, store, (steps - 1) as nat, i);
        }
    }
}

/// A walk leaves nothing out: every ancestor of the highest element whose round is in range is among what
/// is sent, however far apart the rounds are, unless as many elements as may be sent are.
pub proof fn law_range_leaves_nothing_out(
    s: RangeState,
    store: Map<Digest, Arc<SigElement>>,
    n: nat,
    steps: nat,
)
    requires
        is_forest(store),
        ancestor(store, s.cur_hash, n) is Some,
        s.from_round <= store[ancestor(store, s.cur_hash, n)->0].proposal.round <= s.to_round,
        steps > n,
    ensures
        ({
            let e = s.walked(store, steps).elements;
            e.len() >= 1024 || e.contains(store[ancestor(store, s.cur_hash, n)->0])
        }),
    decreases n,
{
    let element = store[s.cur_hash];
    let (next, step) = s.stepped(element);
    let wanted = store[ancestor(store, s.cur_hash, n)->0];
    let e = s.walked(store, steps).elements;
    lemma_ancestors_fall(store, s.cur_hash, n);
    if n == 0 {
        let at = s.elements.len() as int;
        assert(next.elements[at] == wanted);
        if let RangeStep::Read(_) = step {
            lemma_elements_are_kept(next, store, (steps - 1) as nat, at);
        }
        assert(e[at] == wanted);
    } else {
        let parent = element.proposal.block.parent_hash;
        lemma_ancestors_fall(store, parent, (n - 1) as nat);
        if parent == s.cur_hash {
            assert(store[parent].proposal.round < element.proposal.round);
        }
        if let RangeStep::Read(_) = step {
            law_range_leaves_nothing_out(next, store, (n - 1) as nat, (steps - 1) as nat);
        }
    }
}

} // verus!
