//! Confirming transactions to the clients that sent them.
use crate::digest::Digest;
use crate::fnv_map::{map_insert, map_len, map_remove};
use fnv::FnvHashMap;
use vstd::prelude::*;

verus! {

/// The confirmations that a list of decided transactions leads to: one for each that a client is
/// known for, to that client, and each client is told once.
pub open spec fn confirmations<A>(pending: Map<Digest, A>, decided: Seq<Digest>) -> (Map<Digest, A>, Seq<(A, Digest)>)
    decreases decided.len(),
{
    if decided.len() == 0 {
        (pending, Seq::empty())
    } else {
        let p = confirmations(pending, decided.drop_last());
        let h = decided.last();
        if p.0.contains_key(h) {
            (p.0.remove(h), p.1.push((p.0[h], h)))
        } else {
            p
        }
    }
}

/// Which client sent each transaction that is not decided yet.
#[verifier::reject_recursive_types(A)]
pub struct ConfirmationRouter<A> {
    pending: FnvHashMap<Digest, A>,
}

impl<A> ConfirmationRouter<A> {
    pub closed spec fn view(&self) -> Map<Digest, A> {
        self.pending@
    }

    pub fn new() -> (r: Self)
        ensures
            r@ == Map::<Digest, A>::empty(),
    {
        ConfirmationRouter { pending: FnvHashMap::default() }
    }

    /// A client sent a transaction and waits at this address. The latest sender counts.
    pub fn register(&mut self, tx_hash: Digest, reply_to: A)
        ensures
            final(self)@ == old(self)@.insert(tx_hash, reply_to),
    {
        map_insert(&mut self.pending, tx_hash, reply_to);
    }

    /// How many transactions wait for a confirmation.
    pub fn pending(&self) -> (r: usize)
        ensures
            r == self@.dom().len(),
    {
        map_len(&self.pending)
    }

    /// A batch is decided; these are the digests of its transactions. Returns whom to tell what.
    pub fn on_committed(&mut self, decided: &Vec<Digest>) -> (r: Vec<(A, Digest)>)
        ensures
            (final(self)@, r@) == confirmations(old(self)@, decided@),
    {
        let mut out: Vec<(A, Digest)> = Vec::new();
        let mut i: usize = 0;
        assert(decided@.take(0) =~= Seq::empty());
        while i < decided.len()
            invariant
                i <= decided@.len(),
                (self@, out@) == confirmations(old(self)@, decided@.take(i as int)),
            decreases decided@.len() - i,
        {
            assert(decided@.take(i as int + 1).drop_last() =~= decided@.take(i as int));
            let ghost before = self@;
            if let Some(addr) = map_remove(&mut self.pending, &decided[i]) {
                out.push((addr, decided[i]));
            } else {
                assert(self@ =~= before);
            }
            i += 1;
        }
        assert(decided@.take(i as int) =~= decided@);
        out
    }
}

proof fn lemma_contains_last(decided: Seq<Digest>, h: Digest)
    requires
        decided.len() > 0,
    ensures
        decided.contains(h) <==> decided.drop_last().contains(h) || decided.last() == h,
{
    let rest = decided.drop_last();
    if rest.contains(h) {
        let j = choose|j: int| 0 <= j < rest.len() && rest[j] == h;
        assert(decided[j] == h);
    }
    if decided.last() == h {
        assert(decided[decided.len() - 1] == h);
    }
    if decided.contains(h) && decided.last() != h {
        let j = choose|j: int| 0 <= j < decided.len() && decided[j] == h;
        assert(rest[j] == h);
    }
}

/// What waits on is what waited and is not decided.
pub proof fn law_undecided_waits_on<A>(pending: Map<Digest, A>, decided: Seq<Digest>, h: Digest)
    ensures
        confirmations(pending, decided).0.contains_key(h) <==> pending.contains_key(h) && !decided.contains(h),
        confirmations(pending, decided).0.contains_key(h) ==> confirmations(pending, decided).0[h] == pending[h],
    decreases decided.len(),
{
    if decided.len() > 0 {
        law_undecided_waits_on(pending, decided.drop_last(), h);
        law_undecided_waits_on(pending, decided.drop_last(), decided.last());
        lemma_contains_last(decided, h);
    }
}

/// A decided transaction that waits for a confirmation gets it: the client that sent it last is told,
/// and told once, however often the transaction is decided. Nobody else is told anything.
pub proof fn law_decided_is_confirmed<A>(pending: Map<Digest, A>, decided: Seq<Digest>)
    ensures
        ({
            let out = confirmations(pending, decided).1;
            &&& forall|h: Digest|
                pending.contains_key(h) && decided.contains(h) ==> #[trigger] out.contains((pending[h], h))
            &&& forall|j: int| 0 <= j < out.len() ==> pending.contains_key((#[trigger] out[j]).1)
            &&& forall|j: int| 0 <= j < out.len() ==> decided.contains((#[trigger] out[j]).1)
            &&& forall|j: int| 0 <= j < out.len() ==> (#[trigger] out[j]).0 == pending[out[j].1]
            &&& forall|j: int, k: int| 0 <= j < k < out.len() ==> (#[trigger] out[j]).1 != (#[trigger] out[k]).1
        }),
    decreases decided.len(),
{
    let out = confirmations(pending, decided).1;
    if decided.len() > 0 {
        let rest = decided.drop_last();
        let last = decided.last();
        law_decided_is_confirmed(pending, rest);
        law_undecided_waits_on(pending, rest, last);
        let before = confirmations(pending, rest).1;
        assert forall|h: Digest| pending.contains_key(h) && decided.contains(h) implies #[trigger] out.contains(
            (pending[h], h),
        ) by {
            lemma_contains_last(decided, h);
            if rest.contains(h) {
                assert(before.contains((pending[h], h)));
                let j = choose|j: int| 0 <= j < before.len() && before[j] == (pending[h], h);
                assert(out[j] == (pending[h], h));
            } else {
                assert(out[before.len() as int] == (pending[h], h));
            }
        }
        assert forall|j: int| 0 <= j < out.len() implies decided.contains((#[trigger] out[j]).1) by {
            lemma_contains_last(decided, out[j].1);
            if j < before.len() {
                assert(out[j] == before[j]);
            }
        }
        assert forall|j: int| 0 <= j < out.len() implies pending.contains_key((#[trigger] out[j]).1) by {
            if j < before.len() {
                assert(out[j] == before[j]);
            }
        }
        assert forall|j: int| 0 <= j < out.len() implies (#[trigger] out[j]).0 == pending[out[j].1] by {
            if j < before.len() {
                assert(out[j] == before[j]);
            }
        }
        assert forall|j: int, k: int| 0 <= j < k < out.len() implies (#[trigger] out[j]).1 != (#[trigger] out[k]).1 by {
            assert(out[j] == before[j]);
            if k < before.len() {
                assert(out[k] == before[k]);
            } else {
                assert(rest.contains(before[j].1));
            }
        }
    }
}

} // verus!
