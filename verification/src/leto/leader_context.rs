//! The rotation of leaders: a leader sits out for half of the committee's turns and is then
//! eligible again; the next one is drawn from those that are eligible.
use crate::commit_window::{commit_len, spec_commit_len};
use crate::digest::Digest;
use crate::fnv_map::{set_copy, set_insert, set_items, set_remove};
use fnv::FnvHashSet;
use rand::rngs::StdRng;
use rand::seq::IteratorRandom;
use rand::SeedableRng;
use std::collections::VecDeque;
use vstd::prelude::*;

verus! {

/// The generator of the `rand` crate. It is carried and never looked into.
#[verifier::external_type_specification]
#[verifier::external_body]
pub struct ExStdRng(StdRng);

/// `StdRng::from_seed`: a generator. What it will produce is left unsaid.
#[verifier::external_body]
fn rng_from_seed(seed: [u8; 32]) -> (r: StdRng) {
    StdRng::from_seed(seed)
}

/// `StdRng::clone`: another generator. What either will produce is left unsaid.
#[verifier::external_body]
fn rng_copy(rng: &StdRng) -> (r: StdRng) {
    rng.clone()
}

/// `IteratorRandom::choose` over the members of a set: a member, if the set has one. Which one it
/// is depends on the generator and on the order in which the set is walked, and is left unsaid.
#[verifier::external_body]
fn choose_member(set: &FnvHashSet<usize>, rng: &mut StdRng) -> (r: Option<usize>)
    ensures
        match r {
            Some(k) => set@.contains(k),
            None => set@ == Set::<usize>::empty(),
        },
{
    set.iter().choose(rng).copied()
}

/// The node that leads first.
pub const START_ID: usize = 0;

/// The seed that a digest gives.
pub fn hash_to_seed(hash: &Digest) -> (r: [u8; 32])
    ensures
        r == *hash,
{
    *hash
}

/// What there is to know of a rotation.
#[verifier::ext_equal]
pub struct Rotation {
    pub round: u64,
    pub current: usize,
    pub next: usize,
    pub eligible: Set<usize>,
    /// Those that sit out, the latest leader first.
    pub history: Seq<usize>,
}

impl Rotation {
    /// Everybody that is eligible or sits out.
    pub open spec fn members(self) -> Set<usize> {
        self.eligible.union(self.history.to_set())
    }

    /// There are more members than places to sit out in: somebody is always eligible.
    pub open spec fn is_roomy(self) -> bool {
        self.members().len() > self.history.len()
    }

    /// Only the next leader is eligible, and nobody comes back twice in a row: whoever comes back is
    /// the one to lead after that.
    pub open spec fn is_in_line(self) -> bool {
        &&& self.eligible == set![self.next]
        &&& self.next != self.history.first()
        &&& self.next != self.history.last()
        &&& forall|i: int, j: int| 0 <= i && j == i + 1 && j < self.history.len() ==> (#[trigger] self.history[i]) != (
        #[trigger] self.history[j])
    }

    /// The next leader is eligible, and the rotation never runs out of leaders.
    pub open spec fn inv(self) -> bool {
        &&& self.history.len() >= 1
        &&& self.eligible.finite()
        &&& self.eligible.contains(self.next)
        &&& self.is_roomy() || self.is_in_line()
    }

    /// Nobody sits out twice or while being eligible, and the leader sits out first.
    pub open spec fn is_strict(self) -> bool {
        &&& self.history.len() >= 1
        &&& self.history[0] == self.current
        &&& self.history.no_duplicates()
        &&& forall|i: int| 0 <= i < self.history.len() ==> !self.eligible.contains(#[trigger] self.history[i])
        &&& self.eligible.contains(self.next)
    }

    /// Those that are eligible after the next turn: the one that sat out longest joins, the
    /// leader leaves.
    pub open spec fn eligible_next(self) -> Set<usize> {
        self.eligible.insert(self.history.last()).remove(self.next)
    }

    /// The rotation one turn on, where `drawn` comes after the leader of that turn.
    pub open spec fn turned(self, drawn: usize) -> Self {
        Rotation {
            round: (self.round + 1) as u64,
            current: self.next,
            next: drawn,
            eligible: self.eligible_next(),
            history: seq![self.next].add(self.history.drop_last()),
        }
    }

    /// Some number of turns on.
    pub open spec fn reaches(self, turns: nat, end: Self) -> bool
        decreases turns,
    {
        if turns == 0 {
            self == end
        } else {
            exists|drawn: usize|
                #[trigger] self.eligible_next().contains(drawn) && self.turned(drawn).reaches((turns - 1) as nat, end)
        }
    }

    /// Whether the node may be the leader that many turns on.
    pub open spec fn may_lead(self, turns: nat, id: usize) -> bool {
        exists|end: Rotation| #[trigger] self.reaches(turns, end) && end.current == id
    }
}

/// The rotation of leaders.
pub struct LeaderContext {
    rng: StdRng,
    current_round: u64,
    elligible: FnvHashSet<usize>,
    history: VecDeque<usize>,
    current_leader: usize,
    next_leader: usize,
}

/// Those of the ids that sit out at first, the one to come back first at the end.
pub open spec fn first_history(all_ids: Seq<usize>, limit: int) -> Seq<usize> {
    all_ids.skip(all_ids.len() - limit)
}

/// Whether a rotation can start: enough ids, none of them twice. Where all of them sit out at first,
/// the first leader is not the one to come back first, nor the last one.
pub open spec fn can_rotate(all_ids: Seq<usize>, num_faults: usize) -> bool {
    let limit = spec_commit_len(all_ids.len() as usize, num_faults) as int;
    &&& all_ids.len() + num_faults < usize::MAX
    &&& 1 <= limit <= all_ids.len()
    &&& all_ids.no_duplicates()
    &&& limit == all_ids.len() ==> all_ids.first() != START_ID && all_ids.last() != START_ID
}

/// Whether a rotation over these ids can start.
pub fn rotates(all_ids: &Vec<usize>, num_faults: usize) -> (r: bool)
    ensures
        r == can_rotate(all_ids@, num_faults),
{
    if num_faults >= usize::MAX - all_ids.len() {
        return false;
    }
    let n: usize = all_ids.len();
    let limit: usize = commit_len(n, num_faults);
    if limit < 1 || limit > n {
        return false;
    }
    if limit == n && (all_ids[0] == START_ID || all_ids[n - 1] == START_ID) {
        return false;
    }
    let mut seen: FnvHashSet<usize> = FnvHashSet::default();
    let mut i: usize = 0;
    while i < n
        invariant
            i <= n == all_ids@.len(),
            forall|j: int| 0 <= j < i ==> seen@.contains(#[trigger] all_ids@[j]),
            forall|a: usize| #[trigger] seen@.contains(a) ==> exists|j: int| 0 <= j < i && all_ids@[j] == a,
            forall|j: int, k: int| 0 <= j < k < i ==> all_ids@[j] != all_ids@[k],
        decreases n - i,
    {
        let id: usize = all_ids[i];
        let ghost before = seen@;
        if !set_insert(&mut seen, id) {
            proof {
                let j = choose|j: int| 0 <= j < i && all_ids@[j] == id;
                assert(all_ids@[j] == all_ids@[i as int]);
            }
            return false;
        }
        assert forall|a: usize| #[trigger] seen@.contains(a) implies exists|j: int| 0 <= j < i + 1 && all_ids@[j] == a by {
            if a == id {
                assert(all_ids@[i as int] == a);
            } else {
                assert(before.contains(a));
            }
        }
        i += 1;
    }
    true
}

/// The rotation before its first turn.
pub open spec fn before_first(all_ids: Seq<usize>, num_faults: usize) -> Rotation {
    let limit = spec_commit_len(all_ids.len() as usize, num_faults) as int;
    Rotation {
        round: 0,
        current: START_ID,
        next: START_ID,
        eligible: all_ids.take(all_ids.len() - limit).to_set(),
        history: first_history(all_ids, limit),
    }
}

/// The rotation starts over these ids: `START_ID` leads, sits out after that, and one of the eligible
/// ones comes next.
pub open spec fn starts(all_ids: Seq<usize>, num_faults: usize, r: Rotation) -> bool {
    let b = before_first(all_ids, num_faults);
    &&& b.eligible_next().contains(r.next)
    &&& r == (Rotation { round: 0, ..b.turned(r.next) })
}

/// A rotation that starts over distinct ids never runs out of leaders, and its members are the ids
/// and the first leader.
pub proof fn law_rotation_starts(all_ids: Seq<usize>, num_faults: usize, r: Rotation)
    requires
        can_rotate(all_ids, num_faults),
        starts(all_ids, num_faults, r),
    ensures
        r.inv(),
        r.current == START_ID,
        r.members() == all_ids.to_set().insert(START_ID),
        r.history.len() == spec_commit_len(all_ids.len() as usize, num_faults),
{
    let limit = spec_commit_len(all_ids.len() as usize, num_faults) as int;
    let kept = all_ids.len() - limit;
    let b = before_first(all_ids, num_faults);
    let front = all_ids.take(kept);
    let last = all_ids.last();
    assert(b.history.last() == last);
    assert(all_ids[all_ids.len() - 1] == last);
    vstd::seq_lib::seq_to_set_is_finite(front);
    vstd::seq_lib::seq_to_set_is_finite(all_ids);
    vstd::seq_lib::seq_to_set_is_finite(r.history);
    assert forall|i: int| 1 <= i < limit implies #[trigger] r.history[i] == all_ids[kept + i - 1] by {}
    assert(r.history[0] == START_ID);
    assert forall|a: usize| #[trigger] r.members().contains(a) <==> all_ids.to_set().insert(START_ID).contains(a) by {
        if all_ids.contains(a) {
            let i = choose|i: int| 0 <= i < all_ids.len() && all_ids[i] == a;
            if i < kept {
                assert(front[i] == a);
            } else if i < all_ids.len() - 1 {
                assert(r.history[i - kept + 1] == a);
            }
        }
        if front.contains(a) {
            let i = choose|i: int| 0 <= i < front.len() && front[i] == a;
            assert(all_ids[i] == a);
        }
        if r.history.contains(a) {
            let i = choose|i: int| 0 <= i < r.history.len() && r.history[i] == a;
            if i > 0 {
                assert(all_ids[kept + i - 1] == a);
            }
        }
    }
    assert(r.members() =~= all_ids.to_set().insert(START_ID));
    all_ids.unique_seq_to_set();
    if limit == all_ids.len() && all_ids.contains(START_ID) {
        assert(front =~= Seq::empty());
        assert(r.eligible =~= set![last]);
        assert(all_ids[all_ids.len() - 1] != START_ID);
        assert(all_ids[0] != START_ID);
        let at = choose|i: int| 0 <= i < all_ids.len() && all_ids[i] == START_ID;
        assert(0 < at < all_ids.len() - 1);
        assert(r.history.last() == all_ids[all_ids.len() - 2]);
        assert forall|i: int, j: int| 0 <= i && j == i + 1 && j < r.history.len() implies (#[trigger] r.history[i]) != (
        #[trigger] r.history[j]) by {
            if i > 0 {
                assert(all_ids[kept + i - 1] != all_ids[kept + j - 1]);
            } else {
                assert(r.history[1] == all_ids[0]);
            }
        }
        assert(r.is_in_line());
    }
}

/// Where the first leader is not among those that sit out for more than the first turn, nobody sits
/// out twice.
pub proof fn law_rotation_starts_strict(all_ids: Seq<usize>, num_faults: usize, r: Rotation)
    requires
        can_rotate(all_ids, num_faults),
        starts(all_ids, num_faults, r),
        forall|i: int|
            all_ids.len() - spec_commit_len(all_ids.len() as usize, num_faults) <= i < all_ids.len() - 1
                ==> #[trigger] all_ids[i] != START_ID,
    ensures
        r.is_strict(),
{
    let limit = spec_commit_len(all_ids.len() as usize, num_faults) as int;
    let kept = all_ids.len() - limit;
    let front = all_ids.take(kept);
    let b = before_first(all_ids, num_faults);
    assert(b.history.last() == all_ids[all_ids.len() - 1]);
    assert forall|i: int| 1 <= i < limit implies #[trigger] r.history[i] == all_ids[kept + i - 1] by {}
    assert forall|i: int| 0 <= i < r.history.len() implies !r.eligible.contains(#[trigger] r.history[i]) by {
        if i > 0 {
            assert(all_ids[kept + i - 1] != all_ids[all_ids.len() - 1]);
            if front.contains(r.history[i]) {
                let j = choose|j: int| 0 <= j < front.len() && front[j] == r.history[i];
                assert(all_ids[j] == all_ids[kept + i - 1]);
            }
        }
    }
    assert forall|i: int, j: int| 0 <= i < r.history.len() && 0 <= j < r.history.len() && i != j implies r.history[i]
        != r.history[j] by {
        if i > 0 && j > 0 {
            assert(all_ids[kept + i - 1] != all_ids[kept + j - 1]);
        }
    }
}

/// A rotation that never runs out of leaders does not after a turn either: somebody is eligible for
/// it, and whoever is drawn, the members and the places to sit out in stay the same.
pub proof fn law_turn_keeps_rotating(s: Rotation, drawn: usize)
    requires
        s.inv(),
    ensures
        exists|a: usize| s.eligible_next().contains(a),
        s.eligible_next().contains(drawn) ==> s.turned(drawn).inv(),
        s.turned(drawn).members() == s.members(),
        s.turned(drawn).history.len() == s.history.len(),
{
    let e = s.turned(drawn);
    let p = s.history.last();
    assert(s.history[s.history.len() - 1] == p);
    vstd::seq_lib::seq_to_set_is_finite(s.history);
    assert(e.history[0] == s.next);
    assert forall|i: int| 1 <= i < e.history.len() implies #[trigger] e.history[i] == s.history[i - 1] by {}
    assert forall|a: usize| #[trigger] e.members().contains(a) <==> s.members().contains(a) by {
        if s.history.contains(a) {
            let i = choose|i: int| 0 <= i < s.history.len() && s.history[i] == a;
            if i < s.history.len() - 1 {
                assert(e.history[i + 1] == a);
            } else if a == s.next {
                assert(e.history[0] == a);
            }
        }
        if a == s.next {
            assert(e.history[0] == a);
        }
        if e.history.contains(a) {
            let i = choose|i: int| 0 <= i < e.history.len() && e.history[i] == a;
            if i > 0 {
                assert(s.history[i - 1] == a);
            }
        }
    }
    assert(e.members() =~= s.members());
    if s.is_roomy() {
        if !(exists|a: usize| s.eligible_next().contains(a)) {
            assert(!s.eligible_next().contains(p));
            assert(p == s.next);
            assert forall|a: usize| s.members().contains(a) implies #[trigger] s.history.to_set().contains(a) by {
                assert(!s.eligible_next().contains(a));
            }
            assert(s.members() =~= s.history.to_set());
            s.history.lemma_cardinality_of_set();
        }
    } else {
        assert(s.eligible_next() =~= set![p]);
        assert(s.eligible_next().contains(p));
        if s.eligible_next().contains(drawn) {
            assert(e.history.first() == s.next);
            if s.history.len() > 1 {
                assert(e.history.last() == s.history[s.history.len() - 2]);
                assert(s.history[s.history.len() - 2] != s.history[s.history.len() - 1]);
            }
            assert forall|i: int, j: int| 0 <= i && j == i + 1 && j < e.history.len() implies (#[trigger] e.history[i])
                != (#[trigger] e.history[j]) by {
                if i > 0 {
                    assert(s.history[i - 1] != s.history[j - 1]);
                } else {
                    assert(e.history[1] == s.history[0]);
                }
            }
            assert(e.is_in_line());
        }
    }
}

impl LeaderContext {
    /// The text whose digest seeds the rotation.
    pub const SEED: &'static str = "LETO-PROTOCOL";

    pub closed spec fn view(&self) -> Rotation {
        Rotation {
            round: self.current_round,
            current: self.current_leader,
            next: self.next_leader,
            eligible: self.elligible@,
            history: self.history@,
        }
    }

    pub open spec fn wf(&self) -> bool {
        self@.inv()
    }

    /// The leader of the current round.
    pub fn leader(&self) -> (r: usize)
        ensures
            r == self@.current,
    {
        self.current_leader
    }

    /// The leader of the next round.
    pub fn next_leader(&self) -> (r: usize)
        ensures
            r == self@.next,
    {
        self.next_leader
    }

    /// Those that are eligible, in an order that is left open.
    pub fn elligible(&self) -> (r: Vec<usize>)
        ensures
            r@.no_duplicates(),
            r@.to_set() == self@.eligible,
    {
        set_items(&self.elligible)
    }

    /// Those that sit out, the latest leader first.
    pub fn history(&self) -> (r: Vec<usize>)
        ensures
            r@ == self@.history,
    {
        let mut out: Vec<usize> = Vec::new();
        let mut i: usize = 0;
        while i < self.history.len()
            invariant
                i <= self.history@.len(),
                out@ == self.history@.take(i as int),
            decreases self.history@.len() - i,
        {
            out.push(self.history[i]);
            assert(out@ =~= self.history@.take(i as int + 1));
            i += 1;
        }
        assert(self.history@.take(i as int) =~= self.history@);
        out
    }

    /// Moves on to the next round.
    pub fn advance_round(&mut self)
        requires
            old(self).wf(),
            old(self)@.round < u64::MAX,
        ensures
            final(self).wf(),
            old(self)@.eligible_next().contains(final(self)@.next),
            final(self)@ == old(self)@.turned(final(self)@.next),
    {
        let ghost start = self@;
        self.current_round += 1;
        self.current_leader = self.next_leader;
        if let Some(oldest) = self.history.pop_back() {
            set_insert(&mut self.elligible, oldest);
        }
        set_remove(&mut self.elligible, &self.current_leader);
        self.history.push_front(self.current_leader);
        proof {
            assert(start.history.drop_last() =~= start.history.subrange(0, start.history.len() - 1));
            assert(self.history@ =~= seq![start.next].add(start.history.drop_last()));
            assert(self.elligible@ =~= start.eligible_next());
            law_turn_keeps_rotating(start, start.next);
            let a = choose|a: usize| start.eligible_next().contains(a);
            assert(self.elligible@.contains(a));
        }
        if let Some(next) = choose_member(&self.elligible, &mut self.rng) {
            self.next_leader = next;
        }
        proof {
            law_turn_keeps_rotating(start, self@.next);
        }
    }

    /// A rotation over these ids. `seed` is the digest of `SEED`.
    pub fn new(all_ids: Vec<usize>, num_faults: usize, seed: [u8; 32]) -> (r: Self)
        requires
            can_rotate(all_ids@, num_faults),
        ensures
            r.wf(),
            starts(all_ids@, num_faults, r@),
    {
        let limit: usize = commit_len(all_ids.len(), num_faults);
        let kept: usize = all_ids.len() - limit;
        let mut elligible: FnvHashSet<usize> = FnvHashSet::default();
        let mut i: usize = 0;
        assert(all_ids@.take(0).to_set() =~= Set::empty());
        while i < kept
            invariant
                i <= kept <= all_ids@.len(),
                elligible@ == all_ids@.take(i as int).to_set(),
            decreases kept - i,
        {
            let ghost prior = all_ids@.take(i as int);
            let ghost next = all_ids@.take(i as int + 1);
            proof {
                assert(next =~= prior.push(all_ids@[i as int]));
                assert(next.to_set() =~= prior.to_set().insert(all_ids@[i as int])) by {
                    assert(next[i as int] == all_ids@[i as int]);
                    assert forall|a: usize| prior.contains(a) implies #[trigger] next.contains(a) by {
                        let j = choose|j: int| 0 <= j < prior.len() && prior[j] == a;
                        assert(next[j] == a);
                    }
                }
            }
            set_insert(&mut elligible, all_ids[i]);
            i += 1;
        }
        let mut history: VecDeque<usize> = VecDeque::new();
        let mut at: usize = all_ids.len();
        assert(all_ids@.skip(at as int) =~= Seq::empty());
        while at > kept
            invariant
                kept <= at <= all_ids@.len(),
                history@ == all_ids@.skip(at as int),
            decreases at,
        {
            at -= 1;
            history.push_front(all_ids[at]);
            assert(history@ =~= all_ids@.skip(at as int));
        }
        let ghost e0 = elligible@;
        let ghost h0 = history@;
        let oldest: usize = all_ids[all_ids.len() - 1];
        history.pop_back();
        set_insert(&mut elligible, oldest);
        set_remove(&mut elligible, &START_ID);
        history.push_front(START_ID);
        let mut rng = rng_from_seed(seed);
        proof {
            let ids = all_ids@;
            assert(h0.last() == ids.last());
            assert(h0.drop_last() =~= h0.subrange(0, h0.len() - 1));
            assert(history@ =~= seq![START_ID].add(h0.drop_last()));
            assert(elligible@ =~= before_first(ids, num_faults).eligible_next());
            if oldest == START_ID {
                assert(ids.take(kept as int)[0] == ids[0]);
                assert(e0.contains(ids[0]));
                assert(ids[0] != ids[ids.len() - 1]);
                assert(elligible@.contains(ids[0]));
            } else {
                assert(elligible@.contains(oldest));
            }
        }
        let next: usize = match choose_member(&elligible, &mut rng) {
            Some(k) => k,
            None => START_ID,
        };
        let r = LeaderContext {
            rng,
            current_round: 0,
            elligible,
            history,
            current_leader: START_ID,
            next_leader: next,
        };
        proof {
            assert(r@ =~= Rotation { round: 0, ..before_first(all_ids@, num_faults).turned(r@.next) });
            law_rotation_starts(all_ids@, num_faults, r@);
        }
        r
    }

    /// A rotation in the same state, which moves on independently.
    pub fn duplicate(&self) -> (r: Self)
        ensures
            r@ == self@,
    {
        let mut history: VecDeque<usize> = VecDeque::new();
        let mut i: usize = 0;
        while i < self.history.len()
            invariant
                i <= self.history@.len(),
                history@ == self.history@.take(i as int),
            decreases self.history@.len() - i,
        {
            history.push_back(self.history[i]);
            assert(history@ =~= self.history@.take(i as int + 1));
            i += 1;
        }
        assert(self.history@.take(i as int) =~= self.history@);
        LeaderContext {
            rng: rng_copy(&self.rng),
            current_round: self.current_round,
            elligible: set_copy(&self.elligible),
            history,
            current_leader: self.current_leader,
            next_leader: self.next_leader,
        }
    }

    /// Moves on by several rounds.
    pub fn advance_by(&mut self, turns: u64)
        requires
            old(self).wf(),
            old(self)@.round + turns <= u64::MAX,
        ensures
            final(self).wf(),
            old(self)@.reaches(turns as nat, final(self)@),
            final(self)@.round == old(self)@.round + turns,
    {
        let mut left: u64 = turns;
        let ghost start = self@;
        while left > 0
            invariant
                self.wf(),
                left <= turns,
                self@.round + left == start.round + turns,
                start.round + turns <= u64::MAX,
                forall|end: Rotation| #[trigger] self@.reaches(left as nat, end) ==> start.reaches(turns as nat, end),
            decreases left,
        {
            let ghost before = self@;
            self.advance_round();
            proof {
                let drawn = self@.next;
                let n = (left as nat - 1) as nat;
                assert forall|end: Rotation| #[trigger] self@.reaches(n, end) implies start.reaches(turns as nat, end) by {
                    lemma_one_more_turn(before, drawn, n, end);
                    assert(before.reaches(left as nat, end));
                }
            }
            left -= 1;
        }
        assert(self@.reaches(0, self@));
    }
}

proof fn lemma_one_more_turn(s: Rotation, drawn: usize, turns: nat, end: Rotation)
    requires
        s.eligible_next().contains(drawn),
        s.turned(drawn).reaches(turns, end),
    ensures
        s.reaches(turns + 1, end),
{
    assert(s.turned(drawn).reaches(((turns + 1) - 1) as nat, end));
}

/// Whoever leads a round sits out the rounds after it: it is not drawn before all that sit out
/// with it have come back.
pub proof fn law_leader_sits_out(s: Rotation, drawn: usize)
    requires
        s.is_strict(),
        s.eligible_next().contains(drawn),
    ensures
        ({
            let e = s.turned(drawn);
            &&& e.is_strict()
            &&& e.current == s.next
            &&& !e.eligible.contains(e.current)
            &&& e.next != e.current
            &&& e.history.len() == s.history.len()
        }),
{
    let e = s.turned(drawn);
    assert(s.history[s.history.len() - 1] == s.history.last());
    assert forall|i: int| 0 <= i < e.history.len() implies !e.eligible.contains(#[trigger] e.history[i]) by {
        if i > 0 {
            assert(e.history[i] == s.history[i - 1]);
            assert(!s.eligible.contains(s.history[i - 1]));
            assert(s.history[i - 1] != s.history[s.history.len() - 1]);
        }
    }
    assert forall|i: int, j: int| 0 <= i < e.history.len() && 0 <= j < e.history.len() && i != j implies e.history[i]
        != e.history[j] by {
        if i > 0 && j > 0 {
            assert(s.history[i - 1] != s.history[j - 1]);
        } else if i > 0 {
            assert(!s.eligible.contains(s.history[i - 1]));
        } else {
            assert(!s.eligible.contains(s.history[j - 1]));
        }
    }
}

/// A turn changes neither how many are eligible nor how many sit out.
pub proof fn law_rotation_keeps_sizes(s: Rotation, drawn: usize)
    requires
        s.is_strict(),
        s.eligible.finite(),
    ensures
        s.turned(drawn).history.len() == s.history.len(),
        s.turned(drawn).eligible.finite(),
        s.turned(drawn).eligible.len() == s.eligible.len(),
{
    assert(s.history[s.history.len() - 1] == s.history.last());
    assert(!s.eligible.contains(s.history.last()));
    assert(s.eligible.insert(s.history.last()).contains(s.next));
}

/// The rotations of a run, one turn after the other.
pub open spec fn is_run(run: Seq<Rotation>) -> bool {
    forall|i: int, j: int|
        0 <= i && j == i + 1 && j < run.len() ==> (#[trigger] run[i]).eligible_next().contains((#[trigger] run[j]).next)
            && run[j] == run[i].turned(run[j].next)
}

/// Every turn's history begins with the latest leaders, the latest one first.
proof fn lemma_run_history(run: Seq<Rotation>, j: int, back: int)
    requires
        is_run(run),
        run.len() > 0,
        run[0].is_strict(),
        0 <= back <= j < run.len(),
        back < run[0].history.len(),
    ensures
        run[j].is_strict(),
        run[j].history.len() == run[0].history.len(),
        run[j].history[back] == run[j - back].current,
    decreases j,
{
    if j > 0 {
        lemma_run_history(run, j - 1, if back > 0 {
            back - 1
        } else {
            0
        });
        assert(run[j - 1].eligible_next().contains(run[j].next));
        law_leader_sits_out(run[j - 1], run[j].next);
        if back > 0 {
            assert(run[j].history[back] == run[j - 1].history[back - 1]);
        }
    }
}

/// Over any run, as many consecutive leaders as sit out at a time, and one more, are all different.
pub proof fn law_consecutive_leaders_differ(run: Seq<Rotation>, i: int, j: int)
    requires
        is_run(run),
        run.len() > 0,
        run[0].is_strict(),
        0 <= i < j < run.len(),
        j - i <= run[0].history.len(),
    ensures
        run[i].current != run[j].current,
        run[j].current == run[j - 1].next,
{
    let back = j - 1 - i;
    lemma_run_history(run, j - 1, back);
    assert(run[j - 1].eligible_next().contains(run[j].next));
    assert(run[j - 1].history[back] == run[i].current);
    assert(!run[j - 1].eligible.contains(run[j - 1].history[back]));
}

/// Over any run of a rotation, every leader to come is one of its members.
pub proof fn law_leaders_are_members(run: Seq<Rotation>, j: int)
    requires
        is_run(run),
        run.len() > 0,
        run[0].inv(),
        0 <= j < run.len(),
    ensures
        run[j].inv(),
        run[j].members() == run[0].members(),
        run[0].members().contains(run[j].next),
    decreases j,
{
    if j > 0 {
        law_leaders_are_members(run, j - 1);
        assert(run[j - 1].eligible_next().contains(run[j].next));
        law_turn_keeps_rotating(run[j - 1], run[j].next);
    }
}

/// A committee whose first leader is among those that are eligible at first takes turns: over the
/// whole run the first leader is `START_ID`, everybody that leads is of the committee, and as many
/// consecutive leaders as a commit quorum has, and one more, are all different.
pub proof fn law_committee_takes_turns(all_ids: Seq<usize>, num_faults: usize, run: Seq<Rotation>, i: int, j: int)
    requires
        can_rotate(all_ids, num_faults),
        all_ids.take(all_ids.len() - spec_commit_len(all_ids.len() as usize, num_faults)).contains(START_ID),
        is_run(run),
        run.len() > 0,
        starts(all_ids, num_faults, run[0]),
        0 <= i < j < run.len(),
        j - i <= spec_commit_len(all_ids.len() as usize, num_faults),
    ensures
        run[0].current == START_ID,
        run[i].current != run[j].current,
        run[j].current == run[j - 1].next,
        all_ids.contains(run[i].next),
        all_ids.contains(run[j].next),
{
    let front = all_ids.take(all_ids.len() - spec_commit_len(all_ids.len() as usize, num_faults));
    let at = choose|k: int| 0 <= k < front.len() && front[k] == START_ID;
    assert(all_ids[at] == START_ID);
    law_rotation_starts(all_ids, num_faults, run[0]);
    law_rotation_starts_strict(all_ids, num_faults, run[0]);
    law_consecutive_leaders_differ(run, i, j);
    law_leaders_are_members(run, i);
    law_leaders_are_members(run, j);
    assert(all_ids.to_set().insert(START_ID).contains(run[i].next));
    assert(all_ids.to_set().insert(START_ID).contains(run[j].next));
}

} // verus!
