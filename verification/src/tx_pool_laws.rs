//! What holds of the transaction pool across several of its operations.
use crate::tx_pool::{key_lt, keys_of, PoolState};
use crate::types::{tx_key, Transaction, TxKey};
use std::sync::Arc;
use vstd::prelude::*;

verus! {

/// Deciding a payload raises each high mark or leaves it, and raises it to every nonce that the
/// payload holds for that client.
pub proof fn law_high_marks_rise<Tx: Transaction>(
    s: PoolState<Tx>,
    payload: Seq<Arc<Tx>>,
    round: u64,
    client: usize,
)
    ensures
        s.committed_batch(payload, round).high(client) >= s.high(client),
        forall|i: int|
            0 <= i < payload.len() && (#[trigger] payload[i]).spec_client_id() == client
                ==> s.committed_batch(payload, round).high(client) >= payload[i].spec_nonce(),
    decreases payload.len(),
{
    if payload.len() > 0 {
        let rest = payload.drop_last();
        law_high_marks_rise(s, rest, round, client);
        assert forall|i: int| 0 <= i < payload.len() && (#[trigger] payload[i]).spec_client_id() == client implies
            s.committed_batch(payload, round).high(client) >= payload[i].spec_nonce() by {
            if i < rest.len() {
                assert(rest[i] == payload[i]);
            }
        }
    }
}

proof fn lemma_rollback_keeps_marks<Tx: Transaction>(s: PoolState<Tx>, rounds: Seq<u64>)
    ensures
        s.rolled_back(rounds).committed == s.committed,
    decreases rounds.len(),
{
    if rounds.len() > 0 {
        lemma_rollback_keeps_marks(s, rounds.drop_last());
    }
}

/// Only a commit moves high marks: a client's copy, a proposal, a sealed batch and a chain switch
/// leave all of them as they are.
pub proof fn law_only_commits_move_marks<Tx: Transaction>(
    s: PoolState<Tx>,
    tx: Arc<Tx>,
    size: usize,
    payload: Seq<Arc<Tx>>,
    sizes: Seq<usize>,
    keys: Seq<TxKey>,
    rounds: Seq<u64>,
    round: u64,
)
    requires
        sizes.len() == payload.len(),
    ensures
        s.added(tx, size).committed == s.committed,
        s.admitted(payload, sizes, round).committed == s.committed,
        s.drawn(keys, round).committed == s.committed,
        s.rolled_back(rounds).committed == s.committed,
{
    lemma_admitted_key(s.cleaned(round), payload, sizes, round, (0, 0));
    lemma_rollback_keeps_marks(s, rounds);
}

/// A transaction that was decided is dropped when a client sends it again, whatever it carries.
pub proof fn law_replay_is_dropped<Tx: Transaction>(
    s: PoolState<Tx>,
    payload: Seq<Arc<Tx>>,
    round: u64,
    i: int,
    again: Arc<Tx>,
    size: usize,
)
    requires
        0 <= i < payload.len(),
        again.spec_client_id() == payload[i].spec_client_id(),
        again.spec_nonce() <= payload[i].spec_nonce(),
    ensures
        s.committed_batch(payload, round).added(again, size) == s.committed_batch(payload, round),
{
    law_high_marks_rise(s, payload, round, payload[i].spec_client_id());
}

/// What admitting a list of transactions does to one name.
proof fn lemma_admitted_key<Tx: Transaction>(
    s: PoolState<Tx>,
    payload: Seq<Arc<Tx>>,
    sizes: Seq<usize>,
    round: u64,
    k: TxKey,
)
    requires
        sizes.len() == payload.len(),
    ensures
        ({
            let e = s.admitted_all(payload, sizes, round);
            let enters = keys_of(payload).contains(k) && !s.stale(k) && !s.inflight.contains_key(k);
            &&& e.committed == s.committed
            &&& !enters ==> (e.mineable.contains_key(k) <==> s.mineable.contains_key(k))
            &&& !enters && s.mineable.contains_key(k) ==> e.mineable[k] == s.mineable[k]
            &&& !enters ==> (e.inflight.contains_key(k) <==> s.inflight.contains_key(k))
            &&& !enters && s.inflight.contains_key(k) ==> e.inflight[k] == s.inflight[k]
            &&& enters ==> !e.mineable.contains_key(k) && e.inflight.contains_key(k) && e.inflight[k].round == round
                && tx_key(*e.inflight[k].tx) == k
            &&& enters && s.mineable.contains_key(k) ==> e.inflight[k].size == s.mineable[k].1
            &&& e.in_round(round).contains(k) ==> s.in_round(round).contains(k) || enters
        }),
    decreases payload.len(),
{
    let keys = keys_of(payload);
    if payload.len() > 0 {
        let rest = payload.drop_last();
        lemma_admitted_key(s, rest, sizes.drop_last(), round, k);
        let last = keys.last();
        assert(last == tx_key(*payload.last()));
        assert(keys_of(rest) =~= keys.drop_last());
        assert(keys.contains(k) <==> keys_of(rest).contains(k) || k == last) by {
            if keys_of(rest).contains(k) {
                let n = choose|n: int| 0 <= n < rest.len() && keys_of(rest)[n] == k;
                assert(keys[n] == k);
            }
            if k == last {
                assert(keys[payload.len() - 1] == k);
            }
            if keys.contains(k) && k != last {
                let n = choose|n: int| 0 <= n < keys.len() && keys[n] == k;
                assert(keys_of(rest)[n] == k);
            }
        }
    }
}

/// Admitting a proposal settles all of its transactions and no other. One that is not stale is in
/// flight and not mineable: as it was if it was in flight, at the round of the proposal if it was
/// not, with the size it was mineable with. No stale transaction enters the pool. A transaction that
/// the proposal does not carry stays as it is, unless it was in flight at the round and went stale:
/// then it is dropped.
pub proof fn law_admission_settles_batch<Tx: Transaction>(
    s: PoolState<Tx>,
    payload: Seq<Arc<Tx>>,
    sizes: Seq<usize>,
    round: u64,
)
    requires
        s.inv(),
        sizes.len() == payload.len(),
    ensures
        ({
            let e = s.admitted(payload, sizes, round);
            &&& e.committed == s.committed
            &&& forall|i: int|
                0 <= i < payload.len() && !s.stale(tx_key(*#[trigger] payload[i])) ==> {
                    let k = tx_key(*payload[i]);
                    &&& e.inflight.contains_key(k)
                    &&& !e.mineable.contains_key(k)
                    &&& s.inflight.contains_key(k) ==> e.inflight[k] == s.inflight[k]
                    &&& !s.inflight.contains_key(k) ==> e.inflight[k].round == round
                    &&& s.mineable.contains_key(k) ==> e.inflight[k].size == s.mineable[k].1
                }
            &&& forall|k: TxKey|
                s.stale(k) && #[trigger] e.inflight.contains_key(k) ==> s.inflight.contains_key(k)
                    && s.inflight[k].round != round
            &&& forall|k: TxKey| #[trigger] e.mineable.contains_key(k) ==> s.mineable.contains_key(k) && !s.stale(k)
            &&& forall|k: TxKey|
                !keys_of(payload).contains(k) ==> {
                    &&& #[trigger] e.mineable.contains_key(k) <==> s.mineable.contains_key(k)
                    &&& s.mineable.contains_key(k) ==> e.mineable[k] == s.mineable[k]
                }
            &&& forall|k: TxKey|
                !keys_of(payload).contains(k) && !s.stragglers(round).contains(k) ==> {
                    &&& #[trigger] e.inflight.contains_key(k) <==> s.inflight.contains_key(k)
                    &&& s.inflight.contains_key(k) ==> e.inflight[k] == s.inflight[k]
                }
        }),
{
    let c = s.cleaned(round);
    let e = s.admitted(payload, sizes, round);
    lemma_admitted_key(c, payload, sizes, round, (0, 0));
    assert forall|i: int| 0 <= i < payload.len() && !s.stale(tx_key(*#[trigger] payload[i])) implies {
        let k = tx_key(*payload[i]);
        &&& e.inflight.contains_key(k)
        &&& !e.mineable.contains_key(k)
        &&& s.inflight.contains_key(k) ==> e.inflight[k] == s.inflight[k]
        &&& !s.inflight.contains_key(k) ==> e.inflight[k].round == round
        &&& s.mineable.contains_key(k) ==> e.inflight[k].size == s.mineable[k].1
    } by {
        let k = tx_key(*payload[i]);
        assert(keys_of(payload)[i] == k);
        assert(!s.stragglers(round).contains(k));
        lemma_admitted_key(c, payload, sizes, round, k);
    }
    assert forall|k: TxKey| s.stale(k) && #[trigger] e.inflight.contains_key(k) implies s.inflight.contains_key(k)
        && s.inflight[k].round != round by {
        lemma_admitted_key(c, payload, sizes, round, k);
        assert(s.in_round(round).contains(k) <==> s.inflight.contains_key(k) && s.inflight[k].round == round);
    }
    assert forall|k: TxKey| #[trigger] e.mineable.contains_key(k) implies s.mineable.contains_key(k) && !s.stale(k) by {
        lemma_admitted_key(c, payload, sizes, round, k);
    }
    assert forall|k: TxKey| !keys_of(payload).contains(k) implies {
        &&& #[trigger] e.mineable.contains_key(k) <==> s.mineable.contains_key(k)
        &&& s.mineable.contains_key(k) ==> e.mineable[k] == s.mineable[k]
    } by {
        lemma_admitted_key(c, payload, sizes, round, k);
    }
    assert forall|k: TxKey| !keys_of(payload).contains(k) && !s.stragglers(round).contains(k) implies {
        &&& #[trigger] e.inflight.contains_key(k) <==> s.inflight.contains_key(k)
        &&& s.inflight.contains_key(k) ==> e.inflight[k] == s.inflight[k]
    } by {
        lemma_admitted_key(c, payload, sizes, round, k);
    }
}

/// A transaction that went stale in flight is dropped when a proposal of its round is admitted, even
/// one that carries it again.
pub proof fn law_straggler_is_dropped<Tx: Transaction>(
    s: PoolState<Tx>,
    payload: Seq<Arc<Tx>>,
    sizes: Seq<usize>,
    k: TxKey,
)
    requires
        s.inv(),
        sizes.len() == payload.len(),
        s.inflight.contains_key(k),
        s.stale(k),
    ensures
        ({
            let e = s.admitted(payload, sizes, s.inflight[k].round);
            !e.inflight.contains_key(k) && !e.mineable.contains_key(k)
        }),
{
    law_admission_settles_batch(s, payload, sizes, s.inflight[k].round);
}

/// Where every transaction of a list is stale or in flight, admitting the list changes nothing.
proof fn lemma_admit_settled<Tx: Transaction>(
    s: PoolState<Tx>,
    payload: Seq<Arc<Tx>>,
    sizes: Seq<usize>,
    round: u64,
)
    requires
        sizes.len() == payload.len(),
        forall|i: int|
            0 <= i < payload.len() ==> s.stale(tx_key(*#[trigger] payload[i])) || s.inflight.contains_key(
                tx_key(*payload[i]),
            ),
    ensures
        s.admitted_all(payload, sizes, round) == s,
    decreases payload.len(),
{
    if payload.len() > 0 {
        let rest = payload.drop_last();
        assert forall|i: int| 0 <= i < rest.len() implies s.stale(tx_key(*#[trigger] rest[i]))
            || s.inflight.contains_key(tx_key(*rest[i])) by {
            assert(rest[i] == payload[i]);
        }
        lemma_admit_settled(s, rest, sizes.drop_last(), round);
        assert(payload[payload.len() - 1] == payload.last());
    }
}

proof fn lemma_round_stays_open<Tx: Transaction>(
    s: PoolState<Tx>,
    payload: Seq<Arc<Tx>>,
    sizes: Seq<usize>,
    round: u64,
)
    requires
        s.by_round.contains_key(round),
    ensures
        s.admitted_all(payload, sizes, round).by_round.contains_key(round),
    decreases payload.len(),
{
    if payload.len() > 0 {
        lemma_round_stays_open(s, payload.drop_last(), sizes.drop_last(), round);
    }
}

/// Admitting a proposal a second time changes nothing: a proposer may see its own proposal again.
pub proof fn law_admission_is_idempotent<Tx: Transaction>(
    s: PoolState<Tx>,
    payload: Seq<Arc<Tx>>,
    sizes: Seq<usize>,
    again: Seq<usize>,
    round: u64,
)
    requires
        sizes.len() == payload.len(),
        again.len() == payload.len(),
    ensures
        s.admitted(payload, sizes, round).admitted(payload, again, round) == s.admitted(
            payload,
            sizes,
            round,
        ),
{
    let c = s.cleaned(round);
    let e = s.admitted(payload, sizes, round);
    lemma_round_stays_open(c, payload, sizes, round);
    assert forall|k: TxKey| !(#[trigger] e.stragglers(round).contains(k)) by {
        lemma_admitted_key(c, payload, sizes, round, k);
    }
    assert(e.stragglers(round) =~= Set::empty());
    assert(e.cleaned(round).inflight =~= e.inflight);
    assert(e.in_round(round).difference(e.stragglers(round)) =~= e.in_round(round));
    assert(e.cleaned(round).by_round =~= e.by_round);
    assert(e.cleaned(round) == e);
    assert forall|i: int| 0 <= i < payload.len() implies e.stale(tx_key(*#[trigger] payload[i]))
        || e.inflight.contains_key(tx_key(*payload[i])) by {
        assert(keys_of(payload)[i] == tx_key(*payload[i]));
        lemma_admitted_key(c, payload, sizes, round, keys_of(payload)[i]);
    }
    lemma_admit_settled(e, payload, again, round);
}

/// A client's copy that comes after the proposal that carries it is dropped.
pub proof fn law_late_copy_is_dropped<Tx: Transaction>(
    s: PoolState<Tx>,
    payload: Seq<Arc<Tx>>,
    sizes: Seq<usize>,
    round: u64,
    i: int,
    copy: Arc<Tx>,
    size: usize,
)
    requires
        sizes.len() == payload.len(),
        0 <= i < payload.len(),
        tx_key(*copy) == tx_key(*payload[i]),
    ensures
        s.admitted(payload, sizes, round).added(copy, size) == s.admitted(payload, sizes, round),
{
    assert(keys_of(payload)[i] == tx_key(*copy));
    lemma_admitted_key(s.cleaned(round), payload, sizes, round, keys_of(payload)[i]);
}

/// Of two copies under one name, the one that came last is the one that stays.
pub proof fn law_last_write_wins<Tx: Transaction>(
    s: PoolState<Tx>,
    first: Arc<Tx>,
    first_size: usize,
    second: Arc<Tx>,
    second_size: usize,
)
    requires
        tx_key(*first) == tx_key(*second),
    ensures
        s.added(first, first_size).added(second, second_size) == s.added(second, second_size),
{
    let k = (first.spec_client_id(), first.spec_nonce());
    assert(s.mineable.insert(k, (first, first_size)).insert(k, (second, second_size)) =~= s.mineable.insert(
        k,
        (second, second_size),
    ));
}

/// A sealed batch holds no stale transaction and names none twice.
pub proof fn law_batches_are_fresh<Tx: Transaction>(s: PoolState<Tx>, payload: Seq<Arc<Tx>>, batch_size: usize)
    requires
        s.inv(),
        s.batch_drawn(payload, batch_size),
    ensures
        forall|i: int| 0 <= i < payload.len() ==> !s.stale(tx_key(*#[trigger] payload[i])),
        keys_of(payload).no_duplicates(),
{
    let keys = keys_of(payload);
    assert forall|i: int| 0 <= i < payload.len() implies !s.stale(tx_key(*#[trigger] payload[i])) by {
        assert(keys[i] == tx_key(*payload[i]));
        assert(s.mineable.contains_key(keys[i]));
    }
    assert forall|i: int, j: int| 0 <= i < keys.len() && 0 <= j < keys.len() && i != j implies keys[i] != keys[j] by {
        if i < j {
            assert(key_lt(keys[i], keys[j]));
        } else {
            assert(key_lt(keys[j], keys[i]));
        }
    }
}

/// Orphaning the round of a batch undoes the sealing of it: every transaction is mineable again
/// as before, with its size, and nothing else moved.
pub proof fn law_rollback_undoes_batch<Tx: Transaction>(
    s: PoolState<Tx>,
    payload: Seq<Arc<Tx>>,
    batch_size: usize,
    round: u64,
)
    requires
        s.inv(),
        s.batch_drawn(payload, batch_size),
        s.in_round(round) == Set::<TxKey>::empty(),
    ensures
        s.drawn(keys_of(payload), round).rolled_back_one(round) == (PoolState {
            by_round: s.by_round.remove(round),
            ..s
        }),
{
    let keys = keys_of(payload);
    let d = s.drawn(keys, round);
    let e = d.rolled_back_one(round);
    assert(d.by_round[round] =~= keys.to_set());
    assert forall|k: TxKey| keys.contains(k) implies s.mineable.contains_key(k) by {
        let i = choose|i: int| 0 <= i < keys.len() && keys[i] == k;
        assert(s.mineable.contains_key(keys[i]));
    }
    assert(e.mineable =~= s.mineable);
    assert(e.inflight =~= s.inflight);
    assert(e.by_round =~= s.by_round.remove(round));
}

/// A transaction in flight that went stale is dropped when its round is orphaned; one that did
/// not is mineable again, with the size it had.
pub proof fn law_orphans<Tx: Transaction>(s: PoolState<Tx>, k: TxKey)
    requires
        s.inv(),
        s.inflight.contains_key(k),
    ensures
        ({
            let e = s.rolled_back_one(s.inflight[k].round);
            &&& !e.inflight.contains_key(k)
            &&& s.stale(k) ==> !e.mineable.contains_key(k)
            &&& !s.stale(k) ==> e.mineable.contains_key(k) && e.mineable[k] == (
                s.inflight[k].tx,
                s.inflight[k].size,
            )
        }),
{
    assert(s.in_round(s.inflight[k].round).contains(k));
}

/// A decided transaction is in no bucket of the pool any more.
pub proof fn law_decided_leaves<Tx: Transaction>(s: PoolState<Tx>, payload: Seq<Arc<Tx>>, round: u64, i: int)
    requires
        0 <= i < payload.len(),
    ensures
        !s.committed_batch(payload, round).mineable.contains_key(tx_key(*payload[i])),
        !s.committed_batch(payload, round).inflight.contains_key(tx_key(*payload[i])),
    decreases payload.len(),
{
    if i < payload.len() - 1 {
        let rest = payload.drop_last();
        assert(rest[i] == payload[i]);
        lemma_decided_gone(s, rest, i);
    }
}

proof fn lemma_decided_gone<Tx: Transaction>(s: PoolState<Tx>, payload: Seq<Arc<Tx>>, i: int)
    requires
        0 <= i < payload.len(),
    ensures
        !s.committed_all(payload).mineable.contains_key(tx_key(*payload[i])),
        !s.committed_all(payload).inflight.contains_key(tx_key(*payload[i])),
    decreases payload.len(),
{
    if i < payload.len() - 1 {
        assert(payload.drop_last()[i] == payload[i]);
        lemma_decided_gone(s, payload.drop_last(), i);
    }
}

} // verus!
