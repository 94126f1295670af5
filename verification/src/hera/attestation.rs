//! Making, judging and choosing attestations.
use crate::digest::Digest;
use crate::fnv_map::map_get;
use crate::hera::data_chain::DataHeadSnapshot;
use crate::hera::types::{max_height, DataHead, MultiAttestation, MultiAttestationEnvelope};
use crate::sorting::{sorted, sorted_ids};
use crate::types::share;
use fnv::FnvHashMap;
use std::sync::Arc;
use vstd::prelude::*;

verus! {

/// What the check of an attestation's signature says.
#[derive(PartialEq, Eq, Debug, Structural, Clone, Copy)]
pub enum SigAttestationValidity {
    /// The signature is good.
    Valid,
    /// The signer is unknown or the signature is bad.
    Invalid,
}

/// The height that was attested for an author last, 0 if none was.
pub open spec fn attested_before(prev: Map<usize, u64>, author: usize) -> u64 {
    if prev.contains_key(author) {
        prev[author]
    } else {
        0
    }
}

/// Whether the author has a head above what was attested for it last.
pub open spec fn moved_on(
    snapshots: Map<usize, DataHeadSnapshot>,
    prev: Map<usize, u64>,
    author: usize,
) -> bool {
    snapshots.contains_key(author) && snapshots[author].height > attested_before(prev, author)
}

/// The heads of the authors that have moved on, in the order of the list.
pub open spec fn fresh_heads(
    ids: Seq<usize>,
    snapshots: Map<usize, DataHeadSnapshot>,
    prev: Map<usize, u64>,
) -> Seq<DataHead>
    decreases ids.len(),
{
    if ids.len() == 0 {
        Seq::empty()
    } else {
        let rest = fresh_heads(ids.drop_last(), snapshots, prev);
        let id = ids.last();
        if moved_on(snapshots, prev, id) {
            let s = snapshots[id];
            rest.push(DataHead { author: id, hash: s.hash, height: s.height, epoch: s.epoch })
        } else {
            rest
        }
    }
}

/// The authors that have not moved on, in the order of the list.
pub open spec fn silent_authors(
    ids: Seq<usize>,
    snapshots: Map<usize, DataHeadSnapshot>,
    prev: Map<usize, u64>,
) -> Seq<usize>
    decreases ids.len(),
{
    if ids.len() == 0 {
        Seq::empty()
    } else {
        let rest = silent_authors(ids.drop_last(), snapshots, prev);
        if moved_on(snapshots, prev, ids.last()) {
            rest
        } else {
            rest.push(ids.last())
        }
    }
}

/// The envelope that the leader of round `r_s` signs: the authors in increasing order, each with
/// its head if it has moved on since the last attestation and blamed if not.
pub fn attestation_envelope(
    all_ids: &Vec<usize>,
    snapshots: &FnvHashMap<usize, DataHeadSnapshot>,
    prev_attested: &FnvHashMap<usize, u64>,
    epoch_s: u64,
    r_s: u64,
    parent_hash_s: Digest,
) -> (r: MultiAttestationEnvelope)
    ensures
        r.epoch_s == epoch_s,
        r.round_s == r_s,
        r.parent_hash_s == parent_hash_s,
        r.heads@ == fresh_heads(sorted(all_ids@), snapshots@, prev_attested@),
        r.blames@ == silent_authors(sorted(all_ids@), snapshots@, prev_attested@),
{
    let ids = sorted_ids(all_ids);
    let mut heads: Vec<DataHead> = Vec::new();
    let mut blames: Vec<usize> = Vec::new();
    let mut i: usize = 0;
    assert(ids@.take(0) =~= Seq::empty());
    while i < ids.len()
        invariant
            i <= ids@.len(),
            heads@ == fresh_heads(ids@.take(i as int), snapshots@, prev_attested@),
            blames@ == silent_authors(ids@.take(i as int), snapshots@, prev_attested@),
        decreases ids@.len() - i,
    {
        assert(ids@.take(i as int + 1).drop_last() =~= ids@.take(i as int));
        let id: usize = ids[i];
        let prev: u64 = match map_get(prev_attested, &id) {
            Some(h) => *h,
            None => 0,
        };
        match map_get(snapshots, &id) {
            Some(s) => {
                if s.height > prev {
                    heads.push(DataHead { author: id, hash: s.hash, height: s.height, epoch: s.epoch });
                } else {
                    blames.push(id);
                }
            },
            None => {
                blames.push(id);
            },
        }
        i += 1;
    }
    assert(ids@.take(i as int) =~= ids@);
    MultiAttestationEnvelope { epoch_s, round_s: r_s, parent_hash_s, heads, blames }
}

/// A decided attestation, with the round of the element that carries it.
pub struct HeraCommittedAttestation {
    pub sig_round: u64,
    pub attestation: Arc<MultiAttestation>,
}

/// The attestation that counts when an element commits: of those that reach the greatest height,
/// the last one.
pub open spec fn is_best(payload: Seq<Arc<MultiAttestation>>, i: int) -> bool {
    &&& 0 <= i < payload.len()
    &&& forall|j: int|
        0 <= j < payload.len() ==> max_height((#[trigger] payload[j]).envelope.heads@) <= max_height(
            payload[i].envelope.heads@,
        )
    &&& forall|j: int|
        i < j < payload.len() ==> max_height((#[trigger] payload[j]).envelope.heads@) < max_height(
            payload[i].envelope.heads@,
        )
}

/// What an element of round `sig_round` with this payload decides: nothing if the payload is empty.
pub fn committed_attestation(sig_round: u64, payload: &Vec<Arc<MultiAttestation>>) -> (r: Option<
    HeraCommittedAttestation,
>)
    ensures
        match r {
            None => payload@.len() == 0,
            Some(c) => c.sig_round == sig_round && exists|i: int| #[trigger] is_best(payload@, i) && c.attestation
                == payload@[i],
        },
{
    if payload.len() == 0 {
        return None;
    }
    let mut best: usize = 0;
    let mut best_height: u64 = payload[0].max_head_height();
    let mut i: usize = 1;
    while i < payload.len()
        invariant
            1 <= i <= payload@.len(),
            best < i,
            best_height == max_height(payload@[best as int].envelope.heads@),
            forall|j: int| 0 <= j < i ==> max_height((#[trigger] payload@[j]).envelope.heads@) <= best_height,
            forall|j: int| best < j < i ==> max_height((#[trigger] payload@[j]).envelope.heads@) < best_height,
        decreases payload@.len() - i,
    {
        let h: u64 = payload[i].max_head_height();
        if h >= best_height {
            best = i;
            best_height = h;
        }
        i += 1;
    }
    assert(is_best(payload@, best as int));
    Some(HeraCommittedAttestation { sig_round, attestation: share(&payload[best]) })
}

/// An attestation accounts for every author of the committee: it carries a head for each that has
/// moved on and blames each that has not, and nobody else.
pub proof fn law_attestation_covers_committee(
    ids: Seq<usize>,
    snapshots: Map<usize, DataHeadSnapshot>,
    prev: Map<usize, u64>,
    author: usize,
)
    ensures
        ids.contains(author) && moved_on(snapshots, prev, author) <==> exists|i: int|
            0 <= i < fresh_heads(ids, snapshots, prev).len() && (#[trigger] fresh_heads(ids, snapshots, prev)[i]).author
                == author,
        ids.contains(author) && !moved_on(snapshots, prev, author) <==> silent_authors(ids, snapshots, prev).contains(
            author,
        ),
        fresh_heads(ids, snapshots, prev).len() + silent_authors(ids, snapshots, prev).len() == ids.len(),
    decreases ids.len(),
{
    if ids.len() > 0 {
        let rest = ids.drop_last();
        law_attestation_covers_committee(rest, snapshots, prev, author);
        assert(ids.contains(author) <==> rest.contains(author) || ids.last() == author) by {
            if rest.contains(author) {
                let j = choose|j: int| 0 <= j < rest.len() && rest[j] == author;
                assert(ids[j] == author);
            }
            if ids.contains(author) {
                let j = choose|j: int| 0 <= j < ids.len() && ids[j] == author;
                if j < rest.len() {
                    assert(rest[j] == author);
                }
            }
            assert(ids[ids.len() - 1] == ids.last());
        }
        let fr = fresh_heads(rest, snapshots, prev);
        let f = fresh_heads(ids, snapshots, prev);
        let sr = silent_authors(rest, snapshots, prev);
        let s = silent_authors(ids, snapshots, prev);
        if moved_on(snapshots, prev, ids.last()) {
            if exists|i: int| 0 <= i < fr.len() && (#[trigger] fr[i]).author == author {
                let i = choose|i: int| 0 <= i < fr.len() && (#[trigger] fr[i]).author == author;
                assert(f[i].author == author);
            }
            if ids.last() == author {
                assert(f[fr.len() as int].author == author);
            }
            if exists|i: int| 0 <= i < f.len() && (#[trigger] f[i]).author == author {
                let i = choose|i: int| 0 <= i < f.len() && (#[trigger] f[i]).author == author;
                if i < fr.len() {
                    assert(fr[i].author == author);
                }
            }
        } else {
            if sr.contains(author) {
                let i = choose|i: int| 0 <= i < sr.len() && sr[i] == author;
                assert(s[i] == author);
            }
            if ids.last() == author {
                assert(s[sr.len() as int] == author);
            }
            if s.contains(author) {
                let i = choose|i: int| 0 <= i < s.len() && s[i] == author;
                if i < sr.len() {
                    assert(sr[i] == author);
                }
            }
        }
    }
}

/// One more author adds its head, as its snapshot has it, if that is higher than what was attested for it
/// last, or than 0 if nothing was; it adds a blame if not. What the others added stays in its order.
pub proof fn law_one_more_author(
    ids: Seq<usize>,
    id: usize,
    snapshots: Map<usize, DataHeadSnapshot>,
    prev: Map<usize, u64>,
)
    ensures
        ({
            let more = ids.push(id);
            let last = if prev.contains_key(id) {
                prev[id]
            } else {
                0
            };
            let heads = fresh_heads(ids, snapshots, prev);
            let blames = silent_authors(ids, snapshots, prev);
            let s = snapshots[id];
            let moved = snapshots.contains_key(id) && s.height > last;
            &&& fresh_heads(Seq::<usize>::empty(), snapshots, prev).len() == 0
            &&& silent_authors(Seq::<usize>::empty(), snapshots, prev).len() == 0
            &&& moved ==> fresh_heads(more, snapshots, prev) == heads.push(
                DataHead { author: id, hash: s.hash, height: s.height, epoch: s.epoch },
            )
            &&& moved ==> silent_authors(more, snapshots, prev) == blames
            &&& !moved ==> fresh_heads(more, snapshots, prev) == heads
            &&& !moved ==> silent_authors(more, snapshots, prev) == blames.push(id)
        }),
{
    assert(ids.push(id).drop_last() =~= ids);
}

/// The height of an attestation is that of its highest head, and 0 without one.
pub proof fn law_height_of_an_attestation(heads: Seq<DataHead>)
    ensures
        forall|i: int| 0 <= i < heads.len() ==> (#[trigger] heads[i]).height <= max_height(heads),
        max_height(heads) == 0 || exists|i: int|
            0 <= i < heads.len() && (#[trigger] heads[i]).height == max_height(heads),
    decreases heads.len(),
{
    if heads.len() > 0 {
        let rest = heads.drop_last();
        law_height_of_an_attestation(rest);
        assert forall|i: int| 0 <= i < heads.len() implies (#[trigger] heads[i]).height <= max_height(heads) by {
            if i < rest.len() {
                assert(rest[i].height <= max_height(rest));
            }
        }
        if heads.last().height > max_height(rest) {
            assert(heads[heads.len() - 1].height == max_height(heads));
        } else if max_height(rest) != 0 {
            let i = choose|i: int| 0 <= i < rest.len() && (#[trigger] rest[i]).height == max_height(rest);
            assert(heads[i].height == max_height(heads));
        }
    }
}

/// The attestation that counts reaches as high as any of the payload, and higher than any after it. There
/// is exactly one in a payload that is not empty.
pub proof fn law_one_attestation_counts(payload: Seq<Arc<MultiAttestation>>, i: int, j: int)
    requires
        is_best(payload, i),
        0 <= j < payload.len(),
    ensures
        0 <= i < payload.len(),
        max_height(payload[j].envelope.heads@) <= max_height(payload[i].envelope.heads@),
        j > i ==> max_height(payload[j].envelope.heads@) < max_height(payload[i].envelope.heads@),
        is_best(payload, j) ==> j == i,
{
}

/// A payload that is not empty has an attestation that counts.
pub proof fn law_some_attestation_counts(payload: Seq<Arc<MultiAttestation>>)
    requires
        payload.len() > 0,
    ensures
        exists|i: int| #[trigger] is_best(payload, i),
    decreases payload.len(),
{
    let n = payload.len() - 1;
    if n == 0 {
        assert(is_best(payload, 0));
    } else {
        let rest = payload.drop_last();
        law_some_attestation_counts(rest);
        let i = choose|i: int| #[trigger] is_best(rest, i);
        let top = max_height(payload[i].envelope.heads@);
        assert(rest[i] == payload[i]);
        assert forall|j: int| 0 <= j < n implies max_height((#[trigger] payload[j]).envelope.heads@) <= top by {
            assert(rest[j] == payload[j]);
        }
        assert forall|j: int| i < j < n implies max_height((#[trigger] payload[j]).envelope.heads@) < top by {
            assert(rest[j] == payload[j]);
        }
        if max_height(payload[n].envelope.heads@) >= top {
            assert(is_best(payload, n));
        } else {
            assert(is_best(payload, i));
        }
    }
}

} // verus!
