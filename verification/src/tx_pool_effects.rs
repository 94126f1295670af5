//! What each operation of the transaction pool does to one transaction.
use crate::tx_pool::{
    bytes_of, from_client, inflight_sizes, key_lt, keys_of, mineable_sizes, size_sum, InflightEntry, PoolState,
};
use crate::map_sum::lemma_sum_insert;
use crate::types::{tx_key, Transaction, TxKey};
use std::sync::Arc;
use vstd::prelude::*;

verus! {

/// A transaction goes by its client and its nonce, and is stale once its client has committed that
/// nonce or a higher one. Before a client's first commit only nonce 0 is stale.
pub proof fn law_what_is_stale<Tx: Transaction>(s: PoolState<Tx>, tx: Tx, k: TxKey, i: int, payload: Seq<Arc<Tx>>)
    ensures
        tx_key(tx) == (tx.spec_client_id(), tx.spec_nonce()),
        s.committed.contains_key(k.0) ==> (s.stale(k) <==> k.1 <= s.committed[k.0]),
        !s.committed.contains_key(k.0) ==> (s.stale(k) <==> k.1 == 0),
        keys_of(payload).len() == payload.len(),
        0 <= i < payload.len() ==> keys_of(payload)[i] == (payload[i].spec_client_id(), payload[i].spec_nonce()),
{
}

/// Names are ordered by client first and by nonce then, and the order is total.
pub proof fn law_names_are_ordered(a: TxKey, b: TxKey)
    ensures
        a.0 < b.0 ==> key_lt(a, b),
        a.0 == b.0 ==> (key_lt(a, b) <==> a.1 < b.1),
        key_lt(a, b) ==> !key_lt(b, a),
        a == b || key_lt(a, b) || key_lt(b, a),
{
}

/// A client's copy that is neither stale nor in flight can be mined, with the size that came with it.
/// No other transaction moves, and a copy that is stale or in flight moves none at all.
pub proof fn law_fresh_copy_is_kept<Tx: Transaction>(s: PoolState<Tx>, tx: Arc<Tx>, size: usize)
    ensures
        ({
            let k = (tx.spec_client_id(), tx.spec_nonce());
            let e = s.added(tx, size);
            let high = if s.committed.contains_key(k.0) {
                s.committed[k.0]
            } else {
                0
            };
            &&& k.1 > high && !s.inflight.contains_key(k) ==> e.mineable == s.mineable.insert(k, (tx, size))
            &&& k.1 <= high || s.inflight.contains_key(k) ==> e.mineable == s.mineable
            &&& e.inflight == s.inflight && e.by_round == s.by_round && e.committed == s.committed
        }),
{
}

/// The first of the transactions in a list that goes by the name.
pub open spec fn first_under(keys: Seq<TxKey>, k: TxKey, i: int) -> bool {
    &&& 0 <= i < keys.len()
    &&& keys[i] == k
    &&& forall|j: int| 0 <= j < i ==> #[trigger] keys[j] != k
}

proof fn lemma_admitted_copy<Tx: Transaction>(
    s: PoolState<Tx>,
    payload: Seq<Arc<Tx>>,
    sizes: Seq<usize>,
    round: u64,
    i: int,
)
    requires
        sizes.len() == payload.len(),
        first_under(keys_of(payload), keys_of(payload)[i], i),
        !s.stale(keys_of(payload)[i]),
        !s.inflight.contains_key(keys_of(payload)[i]),
    ensures
        ({
            let k = keys_of(payload)[i];
            let e = s.admitted_all(payload, sizes, round);
            &&& e.committed == s.committed
            &&& e.inflight.contains_key(k)
            &&& e.inflight[k] == (InflightEntry {
                tx: payload[i],
                size: if s.mineable.contains_key(k) {
                    s.mineable[k].1
                } else {
                    sizes[i]
                },
                round,
            })
        }),
    decreases payload.len(),
{
    let keys = keys_of(payload);
    let k = keys[i];
    let rest = payload.drop_last();
    assert(keys_of(rest) =~= keys.drop_last());
    if i < rest.len() {
        assert(keys_of(rest)[i] == k);
        assert forall|j: int| 0 <= j < i implies #[trigger] keys_of(rest)[j] != k by {
            assert(keys[j] != k);
        }
        lemma_admitted_copy(s, rest, sizes.drop_last(), round, i);
    } else {
        assert forall|j: int| 0 <= j < rest.len() implies keys_of(rest)[j] != k by {
            assert(keys[j] != k);
        }
        lemma_not_admitted(s, rest, sizes.drop_last(), round, k);
    }
}

proof fn lemma_not_admitted<Tx: Transaction>(
    s: PoolState<Tx>,
    payload: Seq<Arc<Tx>>,
    sizes: Seq<usize>,
    round: u64,
    k: TxKey,
)
    requires
        sizes.len() == payload.len(),
        !keys_of(payload).contains(k),
    ensures
        ({
            let e = s.admitted_all(payload, sizes, round);
            &&& e.committed == s.committed
            &&& e.mineable.contains_key(k) == s.mineable.contains_key(k)
            &&& s.mineable.contains_key(k) ==> e.mineable[k] == s.mineable[k]
            &&& e.inflight.contains_key(k) == s.inflight.contains_key(k)
            &&& s.inflight.contains_key(k) ==> e.inflight[k] == s.inflight[k]
        }),
    decreases payload.len(),
{
    if payload.len() > 0 {
        let keys = keys_of(payload);
        let rest = payload.drop_last();
        assert(keys_of(rest) =~= keys.drop_last());
        assert forall|j: int| 0 <= j < rest.len() implies keys_of(rest)[j] != k by {
            assert(keys[j] != k);
        }
        lemma_not_admitted(s, rest, sizes.drop_last(), round, k);
        assert(keys[payload.len() - 1] != k);
        assert(keys[payload.len() - 1] == tx_key(*payload.last()));
    }
}

/// A transaction that a proposal brings into flight is the first one under its name that the proposal
/// carries, at the round of the proposal. Its size is the one that it could be mined with, or the one
/// that came with the proposal if the pool did not know it.
pub proof fn law_admitted_copy<Tx: Transaction>(
    s: PoolState<Tx>,
    payload: Seq<Arc<Tx>>,
    sizes: Seq<usize>,
    round: u64,
    i: int,
)
    requires
        s.inv(),
        sizes.len() == payload.len(),
        first_under(keys_of(payload), keys_of(payload)[i], i),
        !s.stale(keys_of(payload)[i]),
        !s.inflight.contains_key(keys_of(payload)[i]),
    ensures
        ({
            let k = keys_of(payload)[i];
            let e = s.admitted(payload, sizes, round);
            &&& e.inflight.contains_key(k)
            &&& e.inflight[k].tx == payload[i]
            &&& e.inflight[k].round == round
            &&& s.mineable.contains_key(k) ==> e.inflight[k].size == s.mineable[k].1
            &&& !s.mineable.contains_key(k) ==> e.inflight[k].size == sizes[i]
        }),
{
    lemma_admitted_copy(s.cleaned(round), payload, sizes, round, i);
}

/// A new pool holds nothing and has no marks.
pub proof fn law_new_pool_is_empty<Tx: Transaction>(k: TxKey, c: usize, r: u64)
    ensures
        ({
            let s = PoolState::<Tx>::new();
            &&& !s.mineable.contains_key(k)
            &&& !s.inflight.contains_key(k)
            &&& !s.committed.contains_key(c)
            &&& !s.by_round.contains_key(r)
        }),
{
}

/// Admitting a proposal drops exactly what is in flight at its round and stale, and leaves all else in
/// flight as it is. It changes the index of no other round, and gives its own round a place there.
pub proof fn law_what_admission_drops<Tx: Transaction>(
    s: PoolState<Tx>,
    payload: Seq<Arc<Tx>>,
    sizes: Seq<usize>,
    round: u64,
    k: TxKey,
    r: u64,
)
    requires
        s.inv(),
        sizes.len() == payload.len(),
        !keys_of(payload).contains(k),
    ensures
        ({
            let e = s.admitted(payload, sizes, round);
            let high = if s.committed.contains_key(k.0) {
                s.committed[k.0]
            } else {
                0
            };
            &&& e.inflight.contains_key(k) <==> s.inflight.contains_key(k) && !(s.inflight[k].round == round && k.1
                <= high)
            &&& e.inflight.contains_key(k) ==> e.inflight[k] == s.inflight[k]
            &&& e.mineable.contains_key(k) <==> s.mineable.contains_key(k)
            &&& e.mineable.contains_key(k) ==> e.mineable[k] == s.mineable[k]
            &&& e.by_round.contains_key(round)
            &&& r != round ==> e.by_round.contains_key(r) == s.by_round.contains_key(r)
            &&& r != round && s.by_round.contains_key(r) ==> e.by_round[r] == s.by_round[r]
        }),
{
    assert(s.in_round(round).contains(k) <==> s.inflight.contains_key(k) && s.inflight[k].round == round);
    lemma_not_admitted(s.cleaned(round), payload, sizes, round, k);
    lemma_index_after_admission(s.cleaned(round), payload, sizes, round, r);
}

proof fn lemma_index_after_admission<Tx: Transaction>(
    s: PoolState<Tx>,
    payload: Seq<Arc<Tx>>,
    sizes: Seq<usize>,
    round: u64,
    r: u64,
)
    requires
        s.by_round.contains_key(round),
    ensures
        ({
            let e = s.admitted_all(payload, sizes, round);
            &&& e.by_round.contains_key(round)
            &&& r != round ==> e.by_round.contains_key(r) == s.by_round.contains_key(r)
            &&& r != round && s.by_round.contains_key(r) ==> e.by_round[r] == s.by_round[r]
        }),
    decreases payload.len(),
{
    if payload.len() > 0 {
        lemma_index_after_admission(s, payload.drop_last(), sizes.drop_last(), round, r);
    }
}

/// What a sealed batch takes leaves the transactions that can be mined and is in flight at the round of
/// the batch, with its size. No other transaction moves, and no other round's index changes.
pub proof fn law_drawn_is_in_flight<Tx: Transaction>(s: PoolState<Tx>, keys: Seq<TxKey>, round: u64, k: TxKey, r: u64)
    requires
        s.mineable.contains_key(k) || !keys.contains(k),
    ensures
        ({
            let e = s.drawn(keys, round);
            &&& keys.contains(k) ==> !e.mineable.contains_key(k) && e.inflight.contains_key(k) && e.inflight[k].tx
                == s.mineable[k].0 && e.inflight[k].size == s.mineable[k].1 && e.inflight[k].round == round
            &&& !keys.contains(k) ==> e.mineable.contains_key(k) == s.mineable.contains_key(k)
                && e.inflight.contains_key(k) == s.inflight.contains_key(k)
            &&& !keys.contains(k) && s.mineable.contains_key(k) ==> e.mineable[k] == s.mineable[k]
            &&& !keys.contains(k) && s.inflight.contains_key(k) ==> e.inflight[k] == s.inflight[k]
            &&& e.by_round.contains_key(round)
            &&& e.by_round[round].contains(k) <==> keys.contains(k) || (s.by_round.contains_key(round)
                && s.by_round[round].contains(k))
            &&& r != round ==> e.by_round.contains_key(r) == s.by_round.contains_key(r)
            &&& r != round && s.by_round.contains_key(r) ==> e.by_round[r] == s.by_round[r]
            &&& e.committed == s.committed
        }),
{
}

/// The bytes of a list of transactions are those of each, one after the other, and so is the sum of a
/// list of sizes.
pub proof fn law_bytes_add_up<Tx>(
    m: Map<TxKey, (Arc<Tx>, usize)>,
    keys: Seq<TxKey>,
    k: TxKey,
    sizes: Seq<usize>,
    size: usize,
)
    ensures
        bytes_of(m, Seq::<TxKey>::empty()) == 0,
        bytes_of(m, keys.push(k)) == bytes_of(m, keys) + m[k].1,
        size_sum(Seq::<usize>::empty()) == 0,
        size_sum(sizes.push(size)) == size_sum(sizes) + size,
{
    assert(keys.push(k).drop_last() =~= keys);
    assert(sizes.push(size).drop_last() =~= sizes);
}

/// The bytes that can be mined, and those in flight, are those of each transaction there, counted once.
pub proof fn law_pool_bytes_add_up<Tx: Transaction>(
    s: PoolState<Tx>,
    k: TxKey,
    m: (Arc<Tx>, usize),
    f: InflightEntry<Tx>,
)
    requires
        s.mineable.dom().finite(),
        s.inflight.dom().finite(),
    ensures
        s.mineable.dom() == Set::<TxKey>::empty() ==> s.mineable_bytes() == 0,
        s.inflight.dom() == Set::<TxKey>::empty() ==> s.inflight_bytes() == 0,
        !s.mineable.contains_key(k) ==> (PoolState { mineable: s.mineable.insert(k, m), ..s }).mineable_bytes()
            == s.mineable_bytes() + m.1,
        !s.inflight.contains_key(k) ==> (PoolState { inflight: s.inflight.insert(k, f), ..s }).inflight_bytes()
            == s.inflight_bytes() + f.size,
        s.total_bytes() == s.mineable_bytes() + s.inflight_bytes(),
{
    let a = mineable_sizes(s.mineable);
    let b = inflight_sizes(s.inflight);
    assert(a.dom() =~= s.mineable.dom());
    assert(b.dom() =~= s.inflight.dom());
    lemma_sum_insert(a, k, m.1 as nat);
    lemma_sum_insert(b, k, f.size as nat);
    assert(mineable_sizes(s.mineable.insert(k, m)) =~= a.insert(k, m.1 as nat));
    assert(inflight_sizes(s.inflight.insert(k, f)) =~= b.insert(k, f.size as nat));
}

/// A sealed batch holds transactions that can be mined, each once, the smallest names first, with none
/// passed over. It is as full as it can be: the next transaction would not fit, none is added to a full
/// batch, and it is empty only if nothing can be mined. It outgrows the batch size only by a single
/// transaction that does so alone.
pub proof fn law_sealed_batch<Tx: Transaction>(s: PoolState<Tx>, payload: Seq<Arc<Tx>>, batch_size: usize)
    requires
        s.inv(),
        s.batch_drawn(payload, batch_size),
    ensures
        ({
            let keys = keys_of(payload);
            let bytes = bytes_of(s.mineable, keys);
            &&& forall|i: int| 0 <= i < payload.len() ==> s.mineable.contains_key(#[trigger] keys[i])
            &&& forall|i: int| 0 <= i < payload.len() ==> s.mineable[#[trigger] keys[i]].0 == payload[i]
            &&& forall|i: int, j: int|
                0 <= i < j < payload.len() ==> {
                    let a = #[trigger] keys[i];
                    let b = #[trigger] keys[j];
                    a.0 < b.0 || (a.0 == b.0 && a.1 < b.1)
                }
            &&& forall|i: int, k: TxKey|
                0 <= i < payload.len() && #[trigger] s.mineable.contains_key(k) && !keys.contains(k) ==> {
                    let a = #[trigger] keys[i];
                    a.0 < k.0 || (a.0 == k.0 && a.1 < k.1)
                }
            &&& bytes <= batch_size || payload.len() == 1
            &&& batch_size > 0 && payload.len() == 0 ==> s.mineable.dom() == Set::<TxKey>::empty()
            &&& batch_size == 0 ==> payload.len() == 0
            &&& forall|k: TxKey|
                (#[trigger] s.mineable.contains_key(k) && !keys.contains(k) && forall|o: TxKey|
                    #[trigger] s.mineable.contains_key(o) && !keys.contains(o) && o != k ==> key_lt(k, o))
                    ==> bytes + s.mineable[k].1 > batch_size || bytes == batch_size
            &&& payload.len() > 0 ==> bytes_of(s.mineable, keys.drop_last()) < batch_size
        }),
{
    let keys = keys_of(payload);
    assert forall|k: TxKey|
        (#[trigger] s.mineable.contains_key(k) && !keys.contains(k) && forall|o: TxKey|
            #[trigger] s.mineable.contains_key(o) && !keys.contains(o) && o != k ==> key_lt(k, o)) implies bytes_of(
        s.mineable,
        keys,
    ) + s.mineable[k].1 > batch_size || bytes_of(s.mineable, keys) == batch_size by {
        assert(s.is_next(keys, k));
    }
}

proof fn lemma_decided<Tx: Transaction>(s: PoolState<Tx>, payload: Seq<Arc<Tx>>, k: TxKey, c: usize, r: u64)
    requires
        s.filed(),
    ensures
        ({
            let e = s.committed_all(payload);
            let decided = keys_of(payload).contains(k);
            &&& decided ==> !e.mineable.contains_key(k) && !e.inflight.contains_key(k)
            &&& !decided ==> e.mineable.contains_key(k) == s.mineable.contains_key(k)
            &&& !decided && s.mineable.contains_key(k) ==> e.mineable[k] == s.mineable[k]
            &&& !decided ==> e.inflight.contains_key(k) == s.inflight.contains_key(k)
            &&& !decided && s.inflight.contains_key(k) ==> e.inflight[k] == s.inflight[k]
            &&& e.committed.contains_key(c) <==> s.committed.contains_key(c) || from_client(payload, c)
            &&& e.high(c) >= s.high(c)
            &&& forall|i: int| 0 <= i < payload.len() && (#[trigger] payload[i]).spec_client_id() == c ==> e.high(c)
                >= payload[i].spec_nonce()
            &&& e.high(c) == s.high(c) || exists|i: int|
                0 <= i < payload.len() && (#[trigger] payload[i]).spec_client_id() == c && payload[i].spec_nonce()
                    == e.high(c)
            &&& e.by_round.contains_key(r) == s.by_round.contains_key(r)
            &&& e.in_round(r).contains(k) <==> s.in_round(r).contains(k) && !decided
        }),
    decreases payload.len(),
{
    let keys = keys_of(payload);
    if payload.len() > 0 {
        let rest = payload.drop_last();
        let n = payload.len() - 1;
        let last = payload.last();
        let lk = keys[n];
        assert(lk == tx_key(*last));
        lemma_decided(s, rest, k, c, r);
        lemma_decided(s, rest, lk, c, r);
        let m = s.committed_all(rest);
        let e = s.committed_all(payload);
        assert(keys_of(rest) =~= keys.drop_last());
        assert(keys.contains(k) <==> keys_of(rest).contains(k) || k == lk) by {
            if keys_of(rest).contains(k) {
                let j = choose|j: int| 0 <= j < rest.len() && keys_of(rest)[j] == k;
                assert(keys[j] == k);
            }
            if keys.contains(k) && k != lk {
                let j = choose|j: int| 0 <= j < keys.len() && keys[j] == k;
                assert(keys_of(rest)[j] == k);
            }
        }
        assert(from_client(payload, c) <==> from_client(rest, c) || lk.0 == c) by {
            if from_client(rest, c) {
                let j = choose|j: int| 0 <= j < rest.len() && (#[trigger] rest[j]).spec_client_id() == c;
                assert(payload[j].spec_client_id() == c);
            }
            if lk.0 == c {
                assert(payload[n].spec_client_id() == c);
            }
            if from_client(payload, c) && lk.0 != c {
                let j = choose|j: int| 0 <= j < payload.len() && (#[trigger] payload[j]).spec_client_id() == c;
                assert(rest[j].spec_client_id() == c);
            }
        }
        assert forall|i: int| 0 <= i < payload.len() && (#[trigger] payload[i]).spec_client_id() == c implies e.high(c)
            >= payload[i].spec_nonce() by {
            if i < n {
                assert(rest[i] == payload[i]);
            }
        }
        if e.high(c) != s.high(c) {
            if e.high(c) == m.high(c) {
                let j = choose|j: int|
                    0 <= j < rest.len() && (#[trigger] rest[j]).spec_client_id() == c && rest[j].spec_nonce()
                        == m.high(c);
                assert(payload[j].spec_client_id() == c);
            } else {
                assert(payload[n].spec_client_id() == c);
            }
        }
        if m.inflight.contains_key(lk) {
            let q = m.inflight[lk].round;
            assert(s.in_round(q).contains(lk));
            lemma_decided(s, rest, lk, c, q);
            assert(m.by_round.contains_key(q));
        } else if k == lk && !keys_of(rest).contains(k) {
            assert(!s.inflight.contains_key(k));
            assert(!s.in_round(r).contains(k));
        }
        if k == lk && m.inflight.contains_key(lk) {
            assert(s.in_round(r).contains(lk) <==> s.inflight[lk].round == r);
        }
    }
}

/// A commit takes out what was decided, and what can be mined of the same clients and is stale now. All
/// else stays: what is in flight stays in flight even if it went stale. Each client's mark rises to the
/// highest nonce decided for it, if that is higher. The round loses its place in the index if nothing is
/// in flight there any more.
pub proof fn law_what_a_commit_takes_out<Tx: Transaction>(
    s: PoolState<Tx>,
    payload: Seq<Arc<Tx>>,
    round: u64,
    k: TxKey,
    c: usize,
    r: u64,
)
    requires
        s.inv(),
    ensures
        ({
            let e = s.committed_batch(payload, round);
            let decided = keys_of(payload).contains(k);
            let touched = exists|i: int| 0 <= i < payload.len() && (#[trigger] payload[i]).spec_client_id() == k.0;
            &&& decided ==> !e.mineable.contains_key(k) && !e.inflight.contains_key(k)
            &&& !decided ==> (e.mineable.contains_key(k) <==> s.mineable.contains_key(k) && !(touched && k.1 <= e.high(
                k.0,
            )))
            &&& e.mineable.contains_key(k) ==> e.mineable[k] == s.mineable[k]
            &&& !decided ==> e.inflight.contains_key(k) == s.inflight.contains_key(k)
            &&& e.inflight.contains_key(k) ==> e.inflight[k] == s.inflight[k]
            &&& e.committed.contains_key(c) <==> s.committed.contains_key(c) || exists|i: int|
                0 <= i < payload.len() && (#[trigger] payload[i]).spec_client_id() == c
            &&& e.high(c) >= s.high(c)
            &&& forall|i: int| 0 <= i < payload.len() && (#[trigger] payload[i]).spec_client_id() == c ==> e.high(c)
                >= payload[i].spec_nonce()
            &&& e.high(c) == s.high(c) || exists|i: int|
                0 <= i < payload.len() && (#[trigger] payload[i]).spec_client_id() == c && payload[i].spec_nonce()
                    == e.high(c)
            &&& r != round ==> e.by_round.contains_key(r) == s.by_round.contains_key(r)
            &&& e.by_round.contains_key(round) ==> s.by_round.contains_key(round)
            &&& e.by_round.contains_key(round) <==> exists|o: TxKey|
                #[trigger] e.inflight.contains_key(o) && e.inflight[o].round == round
            &&& e.by_round.contains_key(r) ==> (e.by_round[r].contains(k) <==> e.inflight.contains_key(k)
                && e.inflight[k].round == r)
        }),
{
    let a = s.committed_all(payload);
    let b = a.swept(payload);
    let e = s.committed_batch(payload, round);
    lemma_decided(s, payload, k, c, r);
    lemma_decided(s, payload, k, k.0, round);
    lemma_decided(s, payload, k, c, round);
    assert(e.committed == a.committed);
    assert(e.inflight == a.inflight);
    assert forall|o: TxKey| #[trigger] e.inflight.contains_key(o) && e.inflight[o].round == round implies
        e.by_round.contains_key(round) by {
        lemma_decided(s, payload, o, c, round);
        assert(s.in_round(round).contains(o));
        assert(a.in_round(round).contains(o));
        assert(b.by_round[round].contains(o));
    }
    if e.by_round.contains_key(round) {
        assert(!(b.by_round[round] =~= Set::empty()));
        let o = choose|o: TxKey| b.by_round[round].contains(o);
        lemma_decided(s, payload, o, c, round);
        assert(a.in_round(round).contains(o));
        assert(s.in_round(round).contains(o));
        assert(e.inflight.contains_key(o) && e.inflight[o].round == round);
    }
    if e.by_round.contains_key(r) {
        assert(e.by_round[r] == a.in_round(r));
        assert(s.in_round(r).contains(k) <==> s.inflight.contains_key(k) && s.inflight[k].round == r);
    }
    assert(from_client(payload, k.0) <==> exists|i: int|
        0 <= i < payload.len() && (#[trigger] payload[i]).spec_client_id() == k.0);
}

proof fn lemma_rollback_one<Tx: Transaction>(s: PoolState<Tx>, round: u64)
    requires
        s.inv(),
    ensures
        ({
            let e = s.rolled_back_one(round);
            &&& e.inv()
            &&& e.committed == s.committed
            &&& e.by_round == s.by_round.remove(round)
            &&& forall|k: TxKey|
                #[trigger] e.inflight.contains_key(k) <==> s.inflight.contains_key(k) && s.inflight[k].round != round
            &&& forall|k: TxKey| #[trigger] e.inflight.contains_key(k) ==> e.inflight[k] == s.inflight[k]
            &&& forall|k: TxKey|
                #[trigger] e.mineable.contains_key(k) <==> s.mineable.contains_key(k) || (s.inflight.contains_key(k)
                    && s.inflight[k].round == round && !s.stale(k))
            &&& forall|k: TxKey|
                #[trigger] e.mineable.contains_key(k) && s.mineable.contains_key(k) ==> e.mineable[k] == s.mineable[k]
            &&& forall|k: TxKey|
                #[trigger] e.mineable.contains_key(k) && s.inflight.contains_key(k) ==> e.mineable[k] == (
                    s.inflight[k].tx,
                    s.inflight[k].size,
                )
        }),
{
    let e = s.rolled_back_one(round);
    assert forall|k: TxKey| s.inflight.contains_key(k) implies (#[trigger] s.in_round(round).contains(k)
        <==> s.inflight[k].round == round) by {}
    if s.by_round.contains_key(round) {
        let keys = s.by_round[round];
        assert(keys == s.in_round(round));
        assert forall|k: TxKey| #[trigger] keys.contains(k) implies s.inflight.contains_key(k) && s.inflight[k].round
            == round by {
            assert(s.in_round(round).contains(k));
        }
        assert(s.revived(keys).dom().subset_of(s.inflight.dom()));
        assert(s.revived(keys).dom().finite());
        assert(e.mineable.dom() =~= s.mineable.dom().union(s.revived(keys).dom()));
        assert(e.inflight.dom() =~= s.inflight.dom().difference(keys));
        assert forall|r: u64, k: TxKey| #[trigger] e.in_round(r).contains(k) <==> e.inflight.contains_key(k)
            && e.inflight[k].round == r by {
            assert(s.in_round(r).contains(k) <==> s.inflight.contains_key(k) && s.inflight[k].round == r);
            assert(s.in_round(round).contains(k) <==> s.inflight.contains_key(k) && s.inflight[k].round == round);
        }
    } else {
        assert(e.by_round =~= s.by_round.remove(round));
        assert forall|k: TxKey| s.inflight.contains_key(k) implies (#[trigger] s.inflight[k]).round != round by {
            assert(!s.in_round(round).contains(k));
        }
    }
}

/// A chain switch takes everything that is in flight at one of the rounds out of flight, whichever of
/// the rounds it is: what is not stale can be mined again, as it was and with its size, and what is
/// stale is gone. What is in flight at other rounds stays there, what can be mined stays as it is, no
/// mark moves, and the rounds have no place in the index any more while the others keep theirs.
pub proof fn law_every_orphaned_round_is_released<Tx: Transaction>(s: PoolState<Tx>, rounds: Seq<u64>)
    requires
        s.inv(),
    ensures
        ({
            let e = s.rolled_back(rounds);
            &&& e.inv()
            &&& e.committed == s.committed
            &&& forall|k: TxKey|
                #[trigger] e.inflight.contains_key(k) <==> s.inflight.contains_key(k) && !rounds.contains(
                    s.inflight[k].round,
                )
            &&& forall|k: TxKey| #[trigger] e.inflight.contains_key(k) ==> e.inflight[k] == s.inflight[k]
            &&& forall|k: TxKey|
                #[trigger] e.mineable.contains_key(k) <==> s.mineable.contains_key(k) || (s.inflight.contains_key(k)
                    && rounds.contains(s.inflight[k].round) && k.1 > (if s.committed.contains_key(k.0) {
                    s.committed[k.0]
                } else {
                    0
                }))
            &&& forall|k: TxKey|
                #[trigger] e.mineable.contains_key(k) && s.mineable.contains_key(k) ==> e.mineable[k] == s.mineable[k]
            &&& forall|k: TxKey|
                #[trigger] e.mineable.contains_key(k) && s.inflight.contains_key(k) ==> e.mineable[k] == (
                    s.inflight[k].tx,
                    s.inflight[k].size,
                )
            &&& forall|r: u64| #[trigger] e.by_round.contains_key(r) <==> s.by_round.contains_key(r) && !rounds.contains(r)
            &&& forall|r: u64| #[trigger] e.by_round.contains_key(r) ==> e.by_round[r] == s.by_round[r]
        }),
    decreases rounds.len(),
{
    if rounds.len() > 0 {
        let rest = rounds.drop_last();
        let m = s.rolled_back(rest);
        law_every_orphaned_round_is_released(s, rest);
        lemma_rollback_one(m, rounds.last());
        assert forall|r: u64| #[trigger] rounds.contains(r) <==> rest.contains(r) || r == rounds.last() by {
            if rest.contains(r) {
                let j = choose|j: int| 0 <= j < rest.len() && rest[j] == r;
                assert(rounds[j] == r);
            }
            if r == rounds.last() {
                assert(rounds[rounds.len() - 1] == r);
            }
            if rounds.contains(r) && r != rounds.last() {
                let j = choose|j: int| 0 <= j < rounds.len() && rounds[j] == r;
                assert(rest[j] == r);
            }
        }
        let e = s.rolled_back(rounds);
        assert forall|k: TxKey|
            #[trigger] e.mineable.contains_key(k) <==> s.mineable.contains_key(k) || (s.inflight.contains_key(k)
                && rounds.contains(s.inflight[k].round) && !s.stale(k)) by {
            assert(m.mineable.contains_key(k) <==> s.mineable.contains_key(k) || (s.inflight.contains_key(k)
                && rest.contains(s.inflight[k].round) && !s.stale(k)));
            assert(m.inflight.contains_key(k) <==> s.inflight.contains_key(k) && !rest.contains(s.inflight[k].round));
            assert(m.stale(k) == s.stale(k));
        }
        assert forall|k: TxKey| #[trigger] e.mineable.contains_key(k) && s.inflight.contains_key(k) implies e.mineable[k]
            == (s.inflight[k].tx, s.inflight[k].size) by {
            if !m.mineable.contains_key(k) {
                assert(m.inflight.contains_key(k));
            }
        }
        assert forall|k: TxKey| #[trigger] e.inflight.contains_key(k) <==> s.inflight.contains_key(k)
            && !rounds.contains(s.inflight[k].round) by {
            assert(m.inflight.contains_key(k) <==> s.inflight.contains_key(k) && !rest.contains(s.inflight[k].round));
        }
    }
}

} // verus!
