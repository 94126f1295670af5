//! The pool of client transactions, keyed by client and nonce.
use crate::fnv_map::{
    map_contains, map_get, map_insert, map_remove, set_contains, set_insert, set_items, set_len,
    set_remove,
};
use crate::map_sum::{lemma_sum_insert, lemma_sum_remove, map_sum};
use crate::types::{share, tx_key, Batch, Transaction, TxKey};
use fnv::{FnvHashMap, FnvHashSet};
use std::collections::BTreeMap;
use std::sync::Arc;
use vstd::prelude::*;
use vstd::std_specs::iter::IteratorSpec;

verus! {

broadcast use vstd::laws_cmp::group_laws_cmp;

/// A transaction that some proposal carries, with the round of that proposal.
pub struct InflightEntry<Tx> {
    pub tx: Arc<Tx>,
    pub size: usize,
    pub round: u64,
}

/// Transaction names are ordered by client, then by nonce.
pub open spec fn key_lt(a: TxKey, b: TxKey) -> bool {
    a.0 < b.0 || (a.0 == b.0 && a.1 < b.1)
}

/// `BTreeMap::first_key_value`, its key alone: the smallest key of the map.
#[verifier::external_body]
fn first_key<V>(m: &BTreeMap<TxKey, V>) -> (r: Option<TxKey>)
    ensures
        match r {
            Some(k) => m@.contains_key(k) && forall|o: TxKey| #[trigger]
                m@.contains_key(o) ==> o == k || key_lt(k, o),
            None => m@.dom() == Set::<TxKey>::empty(),
        },
{
    m.first_key_value().map(|e| *e.0)
}

/// All keys of a map.
fn all_keys<V>(m: &BTreeMap<TxKey, V>) -> (r: Vec<TxKey>)
    ensures
        r@.to_set() == m@.dom(),
        r@.no_duplicates(),
{
    let mut out: Vec<TxKey> = Vec::new();
    let ghost walked: Seq<TxKey> = m.keys().remaining().unref();
    for k in it: m.keys()
        invariant
            out@ =~= it.seq().unref().subrange(0, it.index()),
            walked == it.seq().unref(),
    {
        out.push(*k);
    }
    assert(walked.subrange(0, walked.len() as int) =~= walked);
    out
}


/// What a pool holds.
#[verifier::ext_equal]
pub struct PoolState<Tx> {
    /// Transactions that a batch may carry, each with its size in bytes.
    pub mineable: Map<TxKey, (Arc<Tx>, usize)>,
    /// Transactions that an undecided proposal carries.
    pub inflight: Map<TxKey, InflightEntry<Tx>>,
    /// The names of the transactions in flight, by the round of their proposal.
    pub by_round: Map<u64, Set<TxKey>>,
    /// The highest nonce committed for each client.
    pub committed: Map<usize, u64>,
}

/// The sizes of the mineable transactions.
pub open spec fn mineable_sizes<Tx>(m: Map<TxKey, (Arc<Tx>, usize)>) -> Map<TxKey, nat> {
    m.map_values(|e: (Arc<Tx>, usize)| e.1 as nat)
}

/// The sizes of the transactions in flight.
pub open spec fn inflight_sizes<Tx>(m: Map<TxKey, InflightEntry<Tx>>) -> Map<TxKey, nat> {
    m.map_values(|e: InflightEntry<Tx>| e.size as nat)
}

/// The sum of a list of sizes.
pub open spec fn size_sum(sizes: Seq<usize>) -> nat
    decreases sizes.len(),
{
    if sizes.len() == 0 {
        0
    } else {
        size_sum(sizes.drop_last()) + sizes.last() as nat
    }
}

/// Whether some transaction of the list is from this client.
pub open spec fn from_client<Tx: Transaction>(payload: Seq<Arc<Tx>>, client: usize) -> bool {
    exists|i: int| 0 <= i < payload.len() && (#[trigger] payload[i]).spec_client_id() == client
}

/// The names of a list of transactions.
pub open spec fn keys_of<Tx: Transaction>(payload: Seq<Arc<Tx>>) -> Seq<TxKey> {
    Seq::new(payload.len(), |i: int| tx_key(*payload[i]))
}

/// The bytes that the named mineable transactions take.
pub open spec fn bytes_of<Tx>(m: Map<TxKey, (Arc<Tx>, usize)>, keys: Seq<TxKey>) -> nat
    decreases keys.len(),
{
    if keys.len() == 0 {
        0
    } else {
        bytes_of(m, keys.drop_last()) + m[keys.last()].1 as nat
    }
}

impl<Tx: Transaction> PoolState<Tx> {
    pub open spec fn new() -> Self {
        PoolState {
            mineable: Map::empty(),
            inflight: Map::empty(),
            by_round: Map::empty(),
            committed: Map::empty(),
        }
    }

    /// The highest nonce committed for the client, 0 before the first commit.
    pub open spec fn high(self, client: usize) -> u64 {
        if self.committed.contains_key(client) {
            self.committed[client]
        } else {
            0
        }
    }

    /// Whether the transaction of this name can no longer be committed.
    pub open spec fn stale(self, k: TxKey) -> bool {
        k.1 <= self.high(k.0)
    }

    pub open spec fn mineable_bytes(self) -> nat {
        map_sum(mineable_sizes(self.mineable))
    }

    pub open spec fn inflight_bytes(self) -> nat {
        map_sum(inflight_sizes(self.inflight))
    }

    pub open spec fn total_bytes(self) -> nat {
        self.mineable_bytes() + self.inflight_bytes()
    }

    /// The names that the index lists for a round.
    pub open spec fn in_round(self, round: u64) -> Set<TxKey> {
        if self.by_round.contains_key(round) {
            self.by_round[round]
        } else {
            Set::empty()
        }
    }

    /// No transaction is mineable and in flight at once, each is filed under its own name,
    /// and the index by round lists exactly the transactions in flight.
    pub open spec fn filed(self) -> bool {
        &&& self.mineable.dom().finite()
        &&& self.inflight.dom().finite()
        &&& forall|k: TxKey| #[trigger] self.mineable.contains_key(k) ==> !self.inflight.contains_key(k)
        &&& forall|k: TxKey| #[trigger] self.mineable.contains_key(k) ==> tx_key(*self.mineable[k].0) == k
        &&& forall|k: TxKey| #[trigger] self.inflight.contains_key(k) ==> tx_key(*self.inflight[k].tx) == k
        &&& forall|r: u64, k: TxKey| #[trigger]
            self.in_round(r).contains(k) <==> self.inflight.contains_key(k) && self.inflight[k].round == r
    }

    /// No mineable transaction is stale.
    pub open spec fn fresh(self) -> bool {
        forall|k: TxKey| #[trigger] self.mineable.contains_key(k) ==> !self.stale(k)
    }

    /// The pool's invariant.
    pub open spec fn inv(self) -> bool {
        self.filed() && self.fresh()
    }

    /// A client's copy arrives. It is dropped if it is stale or already in flight.
    pub open spec fn added(self, tx: Arc<Tx>, size: usize) -> Self {
        let k = tx_key(*tx);
        if self.stale(k) || self.inflight.contains_key(k) {
            self
        } else {
            PoolState { mineable: self.mineable.insert(k, (tx, size)), ..self }
        }
    }

    /// The index has an entry for the round.
    pub open spec fn opened(self, round: u64) -> Self {
        PoolState { by_round: self.by_round.insert(round, self.in_round(round)), ..self }
    }

    /// The transactions in flight at the round that went stale.
    pub open spec fn stragglers(self, round: u64) -> Set<TxKey> {
        self.in_round(round).filter(|k: TxKey| self.stale(k))
    }

    /// The round is open, and what went stale in it is in flight no more.
    pub open spec fn cleaned(self, round: u64) -> Self {
        PoolState {
            inflight: self.inflight.remove_keys(self.stragglers(round)),
            by_round: self.by_round.insert(round, self.in_round(round).difference(self.stragglers(round))),
            ..self
        }
    }

    /// A proposal of this round carries the transaction. A stale one, or one that is in flight
    /// already, changes nothing. `size` counts only if the pool does not know the transaction.
    pub open spec fn admitted_one(self, tx: Arc<Tx>, size: usize, round: u64) -> Self {
        let k = tx_key(*tx);
        if self.stale(k) || self.inflight.contains_key(k) {
            self
        } else {
            let held = if self.mineable.contains_key(k) {
                self.mineable[k].1
            } else {
                size
            };
            PoolState {
                mineable: self.mineable.remove(k),
                inflight: self.inflight.insert(k, InflightEntry { tx, size: held, round }),
                by_round: self.by_round.insert(round, self.in_round(round).insert(k)),
                ..self
            }
        }
    }

    pub open spec fn admitted_all(self, payload: Seq<Arc<Tx>>, sizes: Seq<usize>, round: u64) -> Self
        decreases payload.len(),
    {
        if payload.len() == 0 {
            self
        } else {
            self.admitted_all(payload.drop_last(), sizes.drop_last(), round).admitted_one(
                payload.last(),
                sizes.last(),
                round,
            )
        }
    }

    /// A proposal of this round is admitted. What went stale at the round is dropped first.
    pub open spec fn admitted(self, payload: Seq<Arc<Tx>>, sizes: Seq<usize>, round: u64) -> Self {
        self.cleaned(round).admitted_all(payload, sizes, round)
    }

    /// The named transactions leave the mineable ones for a proposal of this round.
    pub open spec fn drawn(self, keys: Seq<TxKey>, round: u64) -> Self {
        PoolState {
            mineable: self.mineable.remove_keys(keys.to_set()),
            inflight: self.inflight.union_prefer_right(
                Map::new(
                    |k: TxKey| keys.contains(k),
                    |k: TxKey|
                        InflightEntry { tx: self.mineable[k].0, size: self.mineable[k].1, round },
                ),
            ),
            by_round: self.by_round.insert(round, self.in_round(round).union(keys.to_set())),
            ..self
        }
    }

    /// The payload lists mineable transactions in strictly increasing order of their names, and
    /// every mineable transaction that it leaves out comes after all of them.
    pub open spec fn drawn_in_order(self, payload: Seq<Arc<Tx>>) -> bool {
        let keys = keys_of(payload);
        &&& forall|i: int| 0 <= i < keys.len() ==> self.mineable.contains_key(#[trigger] keys[i])
            && self.mineable[keys[i]].0 == payload[i]
        &&& forall|i: int, j: int| 0 <= i < j < keys.len() ==> key_lt(#[trigger] keys[i], #[trigger] keys[j])
        &&& forall|i: int, k: TxKey| 0 <= i < keys.len() && #[trigger] self.mineable.contains_key(k)
            && !keys.contains(k) ==> key_lt(#[trigger] keys[i], k)
    }

    /// The name is the smallest one that is mineable and not among the given ones.
    pub open spec fn is_next(self, keys: Seq<TxKey>, k: TxKey) -> bool {
        &&& self.mineable.contains_key(k)
        &&& !keys.contains(k)
        &&& forall|o: TxKey| #[trigger] self.mineable.contains_key(o) && !keys.contains(o) ==> o == k || key_lt(k, o)
    }

    /// The payload is the batch that the pool seals: transactions in order, up to `batch_size`
    /// bytes, as many as fit. One that is larger than a batch all by itself makes up a batch alone.
    pub open spec fn batch_drawn(self, payload: Seq<Arc<Tx>>, batch_size: usize) -> bool {
        let keys = keys_of(payload);
        let bytes = bytes_of(self.mineable, keys);
        &&& self.drawn_in_order(payload)
        &&& bytes <= batch_size || keys.len() == 1
        &&& keys.len() > 0 ==> bytes_of(self.mineable, keys.drop_last()) < batch_size
        &&& keys.len() == 0 ==> batch_size == 0 || self.mineable.dom() == Set::<TxKey>::empty()
        &&& forall|k: TxKey| #[trigger] self.mineable.contains_key(k) && self.is_next(keys, k) ==> bytes
            >= batch_size || bytes + self.mineable[k].1 > batch_size
    }

    /// The transaction is decided: it leaves the pool and its client's high mark rises to it.
    pub open spec fn committed_one(self, tx: Arc<Tx>) -> Self {
        let k = tx_key(*tx);
        PoolState {
            mineable: self.mineable.remove(k),
            inflight: self.inflight.remove(k),
            by_round: if self.inflight.contains_key(k) {
                let r = self.inflight[k].round;
                self.by_round.insert(r, self.in_round(r).remove(k))
            } else {
                self.by_round
            },
            committed: self.committed.insert(
                k.0,
                if k.1 > self.high(k.0) {
                    k.1
                } else {
                    self.high(k.0)
                },
            ),
        }
    }

    pub open spec fn committed_all(self, payload: Seq<Arc<Tx>>) -> Self
        decreases payload.len(),
    {
        if payload.len() == 0 {
            self
        } else {
            self.committed_all(payload.drop_last()).committed_one(payload.last())
        }
    }

    /// The stale mineable transactions of the payload's clients are gone.
    pub open spec fn swept(self, payload: Seq<Arc<Tx>>) -> Self {
        PoolState {
            mineable: self.mineable.restrict(
                Set::new(|k: TxKey| !(from_client(payload, k.0) && self.stale(k))),
            ),
            ..self
        }
    }

    /// The index has no entry for the round if it would be an empty one.
    pub open spec fn closed_round(self, round: u64) -> Self {
        if self.by_round.contains_key(round) && self.by_round[round] =~= Set::empty() {
            PoolState { by_round: self.by_round.remove(round), ..self }
        } else {
            self
        }
    }

    /// The payload is decided at this round.
    pub open spec fn committed_batch(self, payload: Seq<Arc<Tx>>, round: u64) -> Self {
        self.committed_all(payload).swept(payload).closed_round(round)
    }

    /// What of the given names becomes mineable again when its proposal is orphaned.
    pub open spec fn revived(self, keys: Set<TxKey>) -> Map<TxKey, (Arc<Tx>, usize)> {
        Map::new(
            |k: TxKey| keys.contains(k) && self.inflight.contains_key(k) && !self.stale(k),
            |k: TxKey| (self.inflight[k].tx, self.inflight[k].size),
        )
    }

    /// The named transactions are in flight no more: stale ones are dropped, the others are
    /// mineable again.
    pub open spec fn released(self, keys: Set<TxKey>) -> Self {
        PoolState {
            mineable: self.mineable.union_prefer_right(self.revived(keys)),
            inflight: self.inflight.remove_keys(keys),
            ..self
        }
    }

    /// The chain switched away from the round.
    pub open spec fn rolled_back_one(self, round: u64) -> Self {
        if self.by_round.contains_key(round) {
            PoolState {
                by_round: self.by_round.remove(round),
                ..self.released(self.by_round[round])
            }
        } else {
            self
        }
    }

    /// The chain switched away from the rounds.
    pub open spec fn rolled_back(self, rounds: Seq<u64>) -> Self
        decreases rounds.len(),
    {
        if rounds.len() == 0 {
            self
        } else {
            self.rolled_back(rounds.drop_last()).rolled_back_one(rounds.last())
        }
    }
}

proof fn lemma_mineable_insert<Tx>(m: Map<TxKey, (Arc<Tx>, usize)>, k: TxKey, e: (Arc<Tx>, usize))
    requires
        m.dom().finite(),
    ensures
        m.contains_key(k) ==> map_sum(mineable_sizes(m.insert(k, e))) == map_sum(mineable_sizes(m)) - m[k].1 + e.1,
        m.contains_key(k) ==> m[k].1 <= map_sum(mineable_sizes(m)),
        !m.contains_key(k) ==> map_sum(mineable_sizes(m.insert(k, e))) == map_sum(mineable_sizes(m)) + e.1,
{
    let s = mineable_sizes(m);
    assert(s.dom() =~= m.dom());
    lemma_sum_insert(s, k, e.1 as nat);
    assert(mineable_sizes(m.insert(k, e)) =~= s.insert(k, e.1 as nat));
    if m.contains_key(k) {
        lemma_sum_remove(s, k);
    }
}

proof fn lemma_mineable_remove<Tx>(m: Map<TxKey, (Arc<Tx>, usize)>, k: TxKey)
    requires
        m.dom().finite(),
    ensures
        m.contains_key(k) ==> map_sum(mineable_sizes(m)) == map_sum(mineable_sizes(m.remove(k))) + m[k].1,
        !m.contains_key(k) ==> m.remove(k) == m,
{
    let s = mineable_sizes(m);
    assert(s.dom() =~= m.dom());
    assert(mineable_sizes(m.remove(k)) =~= s.remove(k));
    if m.contains_key(k) {
        lemma_sum_remove(s, k);
    } else {
        assert(m.remove(k) =~= m);
    }
}

proof fn lemma_inflight_insert<Tx>(m: Map<TxKey, InflightEntry<Tx>>, k: TxKey, e: InflightEntry<Tx>)
    requires
        m.dom().finite(),
        !m.contains_key(k),
    ensures
        map_sum(inflight_sizes(m.insert(k, e))) == map_sum(inflight_sizes(m)) + e.size,
{
    let s = inflight_sizes(m);
    assert(s.dom() =~= m.dom());
    lemma_sum_insert(s, k, e.size as nat);
    assert(inflight_sizes(m.insert(k, e)) =~= s.insert(k, e.size as nat));
}

proof fn lemma_inflight_remove<Tx>(m: Map<TxKey, InflightEntry<Tx>>, k: TxKey)
    requires
        m.dom().finite(),
    ensures
        m.contains_key(k) ==> map_sum(inflight_sizes(m)) == map_sum(inflight_sizes(m.remove(k))) + m[k].size,
        !m.contains_key(k) ==> m.remove(k) == m,
{
    let s = inflight_sizes(m);
    assert(s.dom() =~= m.dom());
    assert(inflight_sizes(m.remove(k)) =~= s.remove(k));
    if m.contains_key(k) {
        lemma_sum_remove(s, k);
    } else {
        assert(m.remove(k) =~= m);
    }
}

/// The nonce-keyed transaction pool.
///
/// A transaction is unknown, mineable, in flight at the round of its proposal, or stale: not
/// above its client's highest committed nonce. The pool keeps one number per client for the
/// stale ones.
#[verifier::reject_recursive_types(Tx)]
pub struct Txpool<Tx> {
    mineable: BTreeMap<TxKey, (Arc<Tx>, usize)>,
    mineable_bytes: usize,
    inflight: FnvHashMap<TxKey, InflightEntry<Tx>>,
    inflight_bytes: usize,
    inflight_by_round: FnvHashMap<u64, FnvHashSet<TxKey>>,
    high_committed_nonce: FnvHashMap<usize, u64>,
    batch_size: usize,
}

impl<Tx> Txpool<Tx> {
    pub closed spec fn view(&self) -> PoolState<Tx> {
        PoolState {
            mineable: self.mineable@,
            inflight: self.inflight@,
            by_round: self.inflight_by_round@.map_values(|s: FnvHashSet<TxKey>| s@),
            committed: self.high_committed_nonce@,
        }
    }

    pub closed spec fn spec_batch_size(&self) -> usize {
        self.batch_size
    }
}

impl<Tx: Transaction> Txpool<Tx> {
    /// The pool's invariant holds and its byte counters are right.
    pub closed spec fn wf(&self) -> bool {
        &&& self@.inv()
        &&& self.counted()
    }

    spec fn counted(&self) -> bool {
        &&& self.mineable_bytes == self@.mineable_bytes()
        &&& self.inflight_bytes == self@.inflight_bytes()
        &&& self.mineable_bytes + self.inflight_bytes <= usize::MAX
    }

    /// What every pool keeps: nothing is mineable and in flight at once, each transaction is filed
    /// under its own name and, in flight, under its own round, and no mineable one is stale.
    pub proof fn lemma_wf(&self)
        requires
            self.wf(),
        ensures
            self@.inv(),
            self@.total_bytes() <= usize::MAX,
    {
    }

    /// A pool that holds nothing and seals batches of `batch_size` bytes.
    pub fn new(batch_size: usize) -> (r: Self)
        ensures
            r.wf(),
            r@ == PoolState::<Tx>::new(),
            r@.total_bytes() == 0,
            r.spec_batch_size() == batch_size,
    {
        let r = Self {
            mineable: BTreeMap::new(),
            mineable_bytes: 0,
            inflight: FnvHashMap::default(),
            inflight_bytes: 0,
            inflight_by_round: FnvHashMap::default(),
            high_committed_nonce: FnvHashMap::default(),
            batch_size,
        };
        proof {
            assert(mineable_sizes(r@.mineable) =~= Map::empty());
            assert(inflight_sizes(r@.inflight) =~= Map::empty());
            assert(r@ =~= PoolState::<Tx>::new());
        }
        r
    }

    /// The highest nonce committed for the client, 0 before the first commit.
    fn high(&self, client: usize) -> (r: u64)
        ensures
            r == self@.high(client),
    {
        match map_get(&self.high_committed_nonce, &client) {
            Some(n) => *n,
            None => 0,
        }
    }

    /// Adds a client's copy of a transaction. A stale one, or one that is in flight already, is
    /// dropped; of two copies under one name the later one stays.
    pub fn add_tx(&mut self, tx: Tx, size: usize)
        requires
            old(self).wf(),
            old(self)@.total_bytes() + size <= usize::MAX,
        ensures
            final(self).wf(),
            final(self)@ == old(self)@.added(Arc::new(tx), size),
            final(self)@.total_bytes() <= old(self)@.total_bytes() + size,
            final(self).spec_batch_size() == old(self).spec_batch_size(),
    {
        let tx = Arc::new(tx);
        let c: usize = tx.client_id();
        let n: u64 = tx.nonce();
        if n <= self.high(c) {
            return;
        }
        if map_contains(&self.inflight, &(c, n)) {
            return;
        }
        proof {
            lemma_mineable_insert(self.mineable@, (c, n), (tx, size));
        }
        if let Some(e) = self.mineable.insert((c, n), (tx, size)) {
            self.mineable_bytes -= e.1;
        }
        self.mineable_bytes += size;
        assert forall|r: u64| self@.in_round(r) == old(self)@.in_round(r) by {}
    }

    /// Files a name under a round.
    fn file_under(&mut self, round: u64, k: TxKey)
        ensures
            final(self)@ == (PoolState {
                by_round: old(self)@.by_round.insert(round, old(self)@.in_round(round).insert(k)),
                ..old(self)@
            }),
            final(self).mineable_bytes == old(self).mineable_bytes,
            final(self).inflight_bytes == old(self).inflight_bytes,
            final(self).batch_size == old(self).batch_size,
    {
        let mut set = match map_remove(&mut self.inflight_by_round, &round) {
            Some(s) => s,
            None => FnvHashSet::default(),
        };
        set_insert(&mut set, k);
        map_insert(&mut self.inflight_by_round, round, set);
        assert(self@.by_round =~= old(self)@.by_round.insert(round, old(self)@.in_round(round).insert(k)));
    }

    /// Makes sure that the index has an entry for the round.
    fn open_round(&mut self, round: u64)
        ensures
            final(self)@ == old(self)@.opened(round),
            final(self).mineable_bytes == old(self).mineable_bytes,
            final(self).inflight_bytes == old(self).inflight_bytes,
            final(self).batch_size == old(self).batch_size,
    {
        if !map_contains(&self.inflight_by_round, &round) {
            map_insert(&mut self.inflight_by_round, round, FnvHashSet::default());
        }
        assert(self@.by_round =~= old(self)@.opened(round).by_round);
    }

    /// Admits one transaction of a proposal.
    fn admit_tx(&mut self, tx: &Arc<Tx>, size: usize, round: u64)
        requires
            old(self).wf(),
            old(self)@.total_bytes() + size <= usize::MAX,
        ensures
            final(self).wf(),
            final(self)@ == old(self)@.admitted_one(*tx, size, round),
            final(self)@.total_bytes() <= old(self)@.total_bytes() + size,
            final(self).batch_size == old(self).batch_size,
    {
        let c: usize = tx.client_id();
        let n: u64 = tx.nonce();
        if n <= self.high(c) || map_contains(&self.inflight, &(c, n)) {
            return;
        }
        proof {
            lemma_mineable_remove(self.mineable@, (c, n));
        }
        let held: usize = match self.mineable.remove(&(c, n)) {
            Some(e) => {
                self.mineable_bytes -= e.1;
                e.1
            },
            None => size,
        };
        let entry = InflightEntry { tx: share(tx), size: held, round };
        proof {
            lemma_inflight_insert(self.inflight@, (c, n), entry);
        }
        map_insert(&mut self.inflight, (c, n), entry);
        self.inflight_bytes += held;
        self.file_under(round, (c, n));
        assert(self@ =~= old(self)@.admitted_one(*tx, size, round));
        assert forall|r: u64| r != round implies self@.in_round(r) == old(self)@.in_round(r) by {}
    }

    /// Drops what went stale in flight at the round.
    fn drop_stragglers(&mut self, round: u64)
        requires
            old(self).wf(),
        ensures
            final(self).wf(),
            final(self)@ == old(self)@.cleaned(round),
            final(self)@.total_bytes() <= old(self)@.total_bytes(),
            final(self).batch_size == old(self).batch_size,
    {
        let ghost start = self@;
        let set = match map_remove(&mut self.inflight_by_round, &round) {
            Some(s) => s,
            None => FnvHashSet::default(),
        };
        let items = set_items(&set);
        let mut kept = set;
        let ghost keys = kept@;
        proof {
            assert(keys =~= start.in_round(round));
            assert(self@.by_round =~= start.by_round.remove(round));
            assert(start.inflight.remove_keys(Set::<TxKey>::empty()) =~= start.inflight);
        }
        let ghost mut gone: Set<TxKey> = Set::empty();
        let mut i: usize = 0;
        while i < items.len()
            invariant
                i <= items@.len(),
                start.inv(),
                keys == start.in_round(round),
                items@.no_duplicates(),
                items@.to_set() == keys,
                forall|k: TxKey| #[trigger] gone.contains(k) <==> items@.take(i as int).contains(k) && start.stale(k),
                kept@ == keys.difference(gone),
                self@ == (PoolState {
                    inflight: start.inflight.remove_keys(gone),
                    by_round: start.by_round.remove(round),
                    ..start
                }),
                self@.total_bytes() <= start.total_bytes(),
                self@.inflight.dom().finite(),
                self.counted(),
                self.batch_size == old(self).batch_size,
            decreases items@.len() - i,
        {
            let k: TxKey = items[i];
            let ghost a = items@.take(i as int);
            let ghost b = items@.take(i as int + 1);
            proof {
                assert(items@.to_set().contains(k));
                assert(start.in_round(round).contains(k));
                assert(b =~= a.push(k));
                assert forall|o: TxKey| #[trigger] b.contains(o) <==> a.contains(o) || o == k by {
                    if a.contains(o) {
                        let j = choose|j: int| 0 <= j < a.len() && a[j] == o;
                        assert(b[j] == o);
                    }
                    if o == k {
                        assert(b[i as int] == k);
                    }
                }
                lemma_inflight_remove(self.inflight@, k);
            }
            if k.1 <= self.high(k.0) {
                set_remove(&mut kept, &k);
                if let Some(e) = map_remove(&mut self.inflight, &k) {
                    self.inflight_bytes -= e.size;
                }
                proof {
                    gone = gone.insert(k);
                    assert(kept@ =~= keys.difference(gone));
                    assert(self@.inflight =~= start.inflight.remove_keys(gone));
                }
            }
            i += 1;
        }
        let ghost left = kept@;
        let ghost before = self@.by_round;
        map_insert(&mut self.inflight_by_round, round, kept);
        proof {
            assert(self@.by_round =~= before.insert(round, left));
            assert(before.insert(round, left) =~= start.by_round.insert(round, left));
            assert(items@.take(i as int) =~= items@);
            assert forall|k: TxKey| #[trigger] gone.contains(k) <==> start.stragglers(round).contains(k) by {
                assert(items@.to_set().contains(k) <==> items@.contains(k));
            }
            assert(gone =~= start.stragglers(round));
            let end = start.cleaned(round);
            assert(self@.by_round =~= end.by_round);
            assert forall|r: u64, k: TxKey| #[trigger] self@.in_round(r).contains(k) <==>
                self@.inflight.contains_key(k) && self@.inflight[k].round == r by {
                assert(start.in_round(r).contains(k) <==> start.inflight.contains_key(k) && start.inflight[k].round == r);
                assert(start.in_round(round).contains(k) <==> start.inflight.contains_key(k) && start.inflight[k].round == round);
            }
        }
    }

    /// Notes that `batch` was proposed at `round`, and drops what went stale at that round. `sizes`
    /// gives the encoded size of each of the batch's transactions, used for those that no client
    /// has sent here yet.
    pub fn admit_proposal(&mut self, batch: &Batch<Tx>, sizes: &Vec<usize>, round: u64)
        requires
            old(self).wf(),
            sizes@.len() == batch.payload@.len(),
            old(self)@.total_bytes() + size_sum(sizes@) <= usize::MAX,
        ensures
            final(self).wf(),
            final(self)@ == old(self)@.admitted(batch.payload@, sizes@, round),
            final(self)@.total_bytes() <= old(self)@.total_bytes() + size_sum(sizes@),
            final(self).spec_batch_size() == old(self).spec_batch_size(),
    {
        let ghost start = self@.cleaned(round);
        self.drop_stragglers(round);
        let mut i: usize = 0;
        assert(batch.payload@.take(0) =~= Seq::empty());
        assert(sizes@.take(0) =~= Seq::empty());
        while i < batch.payload.len()
            invariant
                i <= batch.payload@.len() == sizes@.len(),
                self.wf(),
                self@ == start.admitted_all(batch.payload@.take(i as int), sizes@.take(i as int), round),
                self@.total_bytes() <= old(self)@.total_bytes() + size_sum(sizes@.take(i as int)),
                old(self)@.total_bytes() + size_sum(sizes@) <= usize::MAX,
                self.batch_size == old(self).batch_size,
            decreases batch.payload@.len() - i,
        {
            proof {
                lemma_size_sum_take(sizes@, i as int + 1);
                assert(sizes@.take(i as int + 1).drop_last() =~= sizes@.take(i as int));
                assert(batch.payload@.take(i as int + 1).drop_last() =~= batch.payload@.take(i as int));
            }
            self.admit_tx(&batch.payload[i], sizes[i], round);
            i += 1;
        }
        assert(batch.payload@.take(i as int) =~= batch.payload@);
        assert(sizes@.take(i as int) =~= sizes@);
    }

    /// Seals a batch for a proposal of `round`: mineable transactions, smallest name first, up to
    /// `batch_size` bytes. One that is larger than that goes alone.
    pub fn make_batch(&mut self, round: u64) -> (r: Batch<Tx>)
        requires
            old(self).wf(),
        ensures
            final(self).wf(),
            old(self)@.batch_drawn(r.payload@, old(self).spec_batch_size()),
            final(self)@ == old(self)@.drawn(keys_of(r.payload@), round),
            final(self)@.total_bytes() == old(self)@.total_bytes(),
            final(self).spec_batch_size() == old(self).spec_batch_size(),
    {
        let mut payload: Vec<Arc<Tx>> = Vec::new();
        let mut batch_bytes: usize = 0;
        let ghost start = self@;
        let ghost mut keys: Seq<TxKey> = Seq::empty();
        self.open_round(round);
        proof {
            assert forall|r: u64| #[trigger] self@.in_round(r) == start.in_round(r) by {}
            assert(keys =~= keys_of(payload@));
            assert(self@.filed());
            assert(self@.fresh());
            assert(self.counted());
            assert(start.in_round(round).union(keys.to_set()) =~= start.in_round(round));
            assert(self@.mineable =~= start.drawn(keys, round).mineable);
            assert(self@.inflight =~= start.drawn(keys, round).inflight);
            assert(self@ =~= start.drawn(keys, round));
        }
        while batch_bytes < self.batch_size
            invariant
                self.wf(),
                start == old(self)@,
                start.inv(),
                self.batch_size == old(self).batch_size,
                keys == keys_of(payload@),
                self@ == start.drawn(keys, round),
                batch_bytes == bytes_of(start.mineable, keys),
                batch_bytes + self.mineable_bytes == start.mineable_bytes(),
                self.mineable_bytes + self.inflight_bytes == start.total_bytes(),
                start.mineable_bytes() <= usize::MAX,
                start.drawn_in_order(payload@),
                keys.len() > 0 ==> bytes_of(start.mineable, keys.drop_last()) < self.batch_size,
                batch_bytes <= self.batch_size || keys.len() == 1,
            ensures
                batch_bytes >= self.batch_size || self@.mineable.dom() == Set::<TxKey>::empty() || (keys.len() > 0
                    && exists|k: TxKey| start.is_next(keys, k) && batch_bytes + (#[trigger] start.mineable[k]).1
                    > self.batch_size),
            decreases self@.mineable.dom().len(),
        {
            let key = match first_key(&self.mineable) {
                Some(k) => k,
                None => {
                    break;
                },
            };
            let ghost before = self@;
            assert(before.mineable.contains_key(key));
            assert(start.mineable.contains_key(key));
            assert(start.is_next(keys, key)) by {
                assert forall|o: TxKey| #[trigger] start.mineable.contains_key(o) && !keys.contains(o) implies o == key
                    || key_lt(key, o) by {
                    assert(before.mineable.contains_key(o));
                }
            }
            if payload.len() > 0 {
                if let Some(e) = self.mineable.get(&key) {
                    if e.1 > self.batch_size - batch_bytes {
                        assert(start.mineable[key].1 == e.1);
                        break;
                    }
                }
            }
            proof {
                lemma_mineable_remove(self.mineable@, key);
            }
            if let Some(e) = self.mineable.remove(&key) {
                let tx = e.0;
                let size: usize = e.1;
                let ghost prior = payload@;
                self.mineable_bytes -= size;
                batch_bytes += size;
                payload.push(share(&tx));
                let entry = InflightEntry { tx, size, round };
                proof {
                    lemma_inflight_insert(self.inflight@, key, entry);
                }
                map_insert(&mut self.inflight, key, entry);
                self.inflight_bytes += size;
                self.file_under(round, key);
                proof {
                    let next = keys.push(key);
                    assert(payload@.drop_last() =~= prior);
                    assert(tx_key(*tx) == key);
                    assert(keys_of(payload@) =~= next);
                    assert(next.drop_last() =~= keys);
                    assert(next.to_set() =~= keys.to_set().insert(key)) by {
                        assert(next[keys.len() as int] == key);
                        assert forall|k: TxKey| #[trigger] keys.contains(k) implies next.contains(k) by {
                            let i = choose|i: int| 0 <= i < keys.len() && keys[i] == k;
                            assert(next[i] == k);
                        }
                    }
                    assert forall|k: TxKey| #[trigger] next.contains(k) <==> keys.contains(k) || k == key by {
                        assert(next.to_set().contains(k) <==> keys.to_set().insert(key).contains(k));
                    }
                    assert(self@.mineable =~= start.drawn(next, round).mineable);
                    assert(self@.inflight =~= start.drawn(next, round).inflight);
                    assert(before.in_round(round).insert(key) =~= start.in_round(round).union(next.to_set()));
                    assert(self@.by_round =~= start.drawn(next, round).by_round);
                    assert forall|k: TxKey| start.mineable.contains_key(k) && !next.contains(k) implies #[trigger] self@.mineable.contains_key(k) by {
                    }
                    assert forall|i: int| 0 <= i < keys.len() implies key_lt(#[trigger] keys[i], key) by {
                        assert(!keys.contains(key));
                    }
                    assert forall|i: int| 0 <= i < next.len() implies start.mineable.contains_key(#[trigger] next[i])
                        && start.mineable[next[i]].0 == payload@[i] by {
                        if i < keys.len() {
                            assert(next[i] == keys[i]);
                        }
                    }
                    assert forall|i: int, j: int| 0 <= i < j < next.len() implies key_lt(#[trigger] next[i], #[trigger] next[j]) by {
                        assert(next[i] == keys[i]);
                        if j < keys.len() {
                            assert(next[j] == keys[j]);
                        }
                    }
                    assert forall|i: int, k: TxKey| 0 <= i < next.len() && #[trigger] start.mineable.contains_key(k)
                        && !next.contains(k) implies key_lt(#[trigger] next[i], k) by {
                        assert(before.mineable.contains_key(k));
                        if i < keys.len() {
                            assert(next[i] == keys[i]);
                        }
                    }
                    keys = next;
                    assert(start.drawn_in_order(payload@));
                    assert forall|r: u64| r != round implies #[trigger] self@.in_round(r) == before.in_round(r) by {}
                    assert(self@.filed());
                    assert(self@.fresh());
                    assert(self.counted());
                    assert(self@.mineable.dom() =~= before.mineable.dom().remove(key));
                }
            }
        }
        proof {
            if self@.mineable.dom() == Set::<TxKey>::empty() {
                assert forall|k: TxKey| #[trigger] start.mineable.contains_key(k) implies keys.contains(k) by {
                    assert(!self@.mineable.dom().contains(k));
                }
                if keys.len() == 0 {
                    assert(start.mineable.dom() =~= Set::empty());
                }
            }
            assert forall|k: TxKey| #[trigger] start.mineable.contains_key(k) && start.is_next(keys, k) implies
                batch_bytes >= self.batch_size || batch_bytes + start.mineable[k].1 > self.batch_size by {
                if batch_bytes < self.batch_size {
                    let o = choose|o: TxKey| start.is_next(keys, o) && batch_bytes + (#[trigger] start.mineable[o]).1
                        > self.batch_size;
                    assert(start.is_next(keys, o));
                    assert(start.mineable.contains_key(o));
                    assert(o == k);
                }
            }
        }
        Batch { payload }
    }

    /// Takes one decided transaction out of the pool.
    fn commit_tx(&mut self, tx: &Arc<Tx>)
        requires
            old(self)@.filed(),
            old(self).counted(),
        ensures
            final(self)@.filed(),
            final(self).counted(),
            final(self)@ == old(self)@.committed_one(*tx),
            final(self)@.total_bytes() <= old(self)@.total_bytes(),
            final(self).batch_size == old(self).batch_size,
    {
        let c: usize = tx.client_id();
        let n: u64 = tx.nonce();
        let ghost start = self@;
        proof {
            lemma_inflight_remove(self.inflight@, (c, n));
            lemma_mineable_remove(self.mineable@, (c, n));
        }
        if let Some(e) = map_remove(&mut self.inflight, &(c, n)) {
            self.inflight_bytes -= e.size;
            assert(start.in_round(e.round).contains((c, n)));
            if let Some(s) = map_remove(&mut self.inflight_by_round, &e.round) {
                let mut set = s;
                set_remove(&mut set, &(c, n));
                map_insert(&mut self.inflight_by_round, e.round, set);
            }
        }
        if let Some(e) = self.mineable.remove(&(c, n)) {
            self.mineable_bytes -= e.1;
        }
        let cur: u64 = self.high(c);
        map_insert(&mut self.high_committed_nonce, c, if n > cur { n } else { cur });
        proof {
            let end = start.committed_one(*tx);
            assert(self@.mineable =~= end.mineable);
            assert(self@.inflight =~= end.inflight);
            assert(self@.by_round =~= end.by_round);
            assert(self@.committed =~= end.committed);
            assert forall|r: u64, k: TxKey| #[trigger] self@.in_round(r).contains(k) <==>
                self@.inflight.contains_key(k) && self@.inflight[k].round == r by {
                assert(start.in_round(r).contains(k) <==> start.inflight.contains_key(k) && start.inflight[k].round == r);
            }
        }
    }

    /// Notes that `batch` was decided at `round`: its transactions leave the pool, their clients'
    /// high marks rise, and what those clients have mineable at or below the marks is dropped.
    pub fn commit(&mut self, batch: &Batch<Tx>, round: u64)
        requires
            old(self).wf(),
        ensures
            final(self).wf(),
            final(self)@ == old(self)@.committed_batch(batch.payload@, round),
            final(self)@.total_bytes() <= old(self)@.total_bytes(),
            final(self).spec_batch_size() == old(self).spec_batch_size(),
    {
        let ghost start = self@;
        let mut touched: FnvHashSet<usize> = FnvHashSet::default();
        let mut i: usize = 0;
        assert(batch.payload@.take(0) =~= Seq::empty());
        while i < batch.payload.len()
            invariant
                i <= batch.payload@.len(),
                self@.filed(),
                self.counted(),
                self@ == start.committed_all(batch.payload@.take(i as int)),
                self@.total_bytes() <= start.total_bytes(),
                forall|c: usize| #[trigger] touched@.contains(c) <==> from_client(batch.payload@.take(i as int), c),
                self.batch_size == old(self).batch_size,
            decreases batch.payload@.len() - i,
        {
            let ghost prior = batch.payload@.take(i as int);
            let ghost next = batch.payload@.take(i as int + 1);
            proof {
                assert(next.drop_last() =~= prior);
                assert(next.last() == batch.payload@[i as int]);
            }
            let ghost seen = touched@;
            let client: usize = batch.payload[i].client_id();
            set_insert(&mut touched, client);
            proof {
                assert forall|c: usize| #[trigger] touched@.contains(c) <==> from_client(next, c) by {
                    if from_client(prior, c) {
                        let j = choose|j: int| 0 <= j < prior.len() && (#[trigger] prior[j]).spec_client_id() == c;
                        assert(next[j] == prior[j]);
                    }
                    if from_client(next, c) {
                        let j = choose|j: int| 0 <= j < next.len() && (#[trigger] next[j]).spec_client_id() == c;
                        if j < prior.len() {
                            assert(prior[j] == next[j]);
                        }
                    }
                    if c == client {
                        assert(next[i as int].spec_client_id() == c);
                    }
                    assert(seen.contains(c) <==> from_client(prior, c));
                }
            }
            self.commit_tx(&batch.payload[i]);
            i += 1;
        }
        assert(batch.payload@.take(i as int) =~= batch.payload@);
        self.sweep(&touched);
        let ghost swept = self@;
        proof {
            let base = start.committed_all(batch.payload@);
            assert(swept.mineable =~= base.swept(batch.payload@).mineable);
            assert(swept =~= base.swept(batch.payload@));
            assert forall|k: TxKey| #[trigger] swept.mineable.contains_key(k) implies !swept.stale(k) by {
                lemma_committed_all(start, batch.payload@, k);
            }
        }
        let close: bool = match map_get(&self.inflight_by_round, &round) {
            Some(set) => {
                let n: usize = set_len(set);
                proof {
                    lemma_set_finite_of_inflight(swept, round);
                    if set@.len() == 0 {
                        set@.lemma_len0_is_empty();
                    }
                }
                n == 0
            },
            None => false,
        };
        if close {
            map_remove(&mut self.inflight_by_round, &round);
        }
        proof {
            assert(self@.by_round =~= swept.closed_round(round).by_round);
            assert(self@ =~= swept.closed_round(round));
            assert forall|r: u64| #[trigger] self@.in_round(r) =~= swept.in_round(r) by {}
            assert(self@.filed());
            assert(self@.fresh());
        }
    }

    /// Drops the stale mineable transactions of the given clients.
    fn sweep(&mut self, touched: &FnvHashSet<usize>)
        requires
            old(self)@.filed(),
            old(self).counted(),
        ensures
            final(self)@.filed(),
            final(self).counted(),
            final(self)@ == (PoolState {
                mineable: old(self)@.mineable.restrict(
                    Set::new(|k: TxKey| !(touched@.contains(k.0) && old(self)@.stale(k))),
                ),
                ..old(self)@
            }),
            final(self)@.total_bytes() <= old(self)@.total_bytes(),
            final(self).batch_size == old(self).batch_size,
    {
        let ghost start = self@;
        let keys = all_keys(&self.mineable);
        let mut i: usize = 0;
        while i < keys.len()
            invariant
                i <= keys@.len(),
                keys@.to_set() == start.mineable.dom(),
                keys@.no_duplicates(),
                start.filed(),
                self@.filed(),
                self.counted(),
                self@ == (PoolState { mineable: self@.mineable, ..start }),
                self@.total_bytes() <= start.total_bytes(),
                self@.mineable.submap_of(start.mineable),
                forall|j: int| 0 <= j < keys@.len() ==> (self@.mineable.contains_key(#[trigger] keys@[j]) <==>
                    j >= i || !(touched@.contains(keys@[j].0) && start.stale(keys@[j]))),
                self.batch_size == old(self).batch_size,
            decreases keys@.len() - i,
        {
            let k: TxKey = keys[i];
            if set_contains(touched, &k.0) && k.1 <= self.high(k.0) {
                proof {
                    lemma_mineable_remove(self.mineable@, k);
                }
                let ghost before = self@;
                if let Some(e) = self.mineable.remove(&k) {
                    self.mineable_bytes -= e.1;
                }
                assert forall|r: u64| #[trigger] self@.in_round(r) == before.in_round(r) by {}
            }
            i += 1;
        }
        proof {
            let kept = start.mineable.restrict(Set::new(|k: TxKey| !(touched@.contains(k.0) && start.stale(k))));
            assert forall|k: TxKey| self@.mineable.contains_key(k) <==> #[trigger] kept.contains_key(k) by {
                if start.mineable.contains_key(k) {
                    assert(keys@.to_set().contains(k));
                    let j = choose|j: int| 0 <= j < keys@.len() && keys@[j] == k;
                    assert(keys@[j] == k);
                }
            }
            assert(self@.mineable =~= kept);
        }
    }

    /// Releases the transactions in flight at one round.
    fn rollback_round(&mut self, round: u64)
        requires
            old(self).wf(),
        ensures
            final(self).wf(),
            final(self)@ == old(self)@.rolled_back_one(round),
            final(self)@.total_bytes() <= old(self)@.total_bytes(),
            final(self).batch_size == old(self).batch_size,
    {
        let ghost start = self@;
        let set = match map_remove(&mut self.inflight_by_round, &round) {
            Some(set) => set,
            None => {
                assert(self@.by_round =~= start.by_round);
                return;
            },
        };
        let ghost keys = set@;
        assert(start.by_round[round] == keys);
        assert(self@.by_round =~= start.by_round.remove(round));
        let items = set_items(&set);
        let ghost mut done: Set<TxKey> = Set::empty();
        proof {
            assert(self@.mineable =~= start.released(done).mineable);
            assert(self@.inflight =~= start.released(done).inflight);
        }
        let mut i: usize = 0;
        while i < items.len()
            invariant
                i <= items@.len(),
                start.inv(),
                start.by_round.contains_key(round),
                start.by_round[round] == keys,
                items@.no_duplicates(),
                items@.to_set() == keys,
                forall|k: TxKey| #[trigger] done.contains(k) <==> items@.take(i as int).contains(k),
                self@ == (PoolState { by_round: start.by_round.remove(round), ..start.released(done) }),
                self@.total_bytes() <= start.total_bytes(),
                self@.mineable.dom().finite(),
                self@.inflight.dom().finite(),
                self.counted(),
                self.batch_size == old(self).batch_size,
            decreases items@.len() - i,
        {
            let k: TxKey = items[i];
            let ghost before = self@;
            let ghost next = done.insert(k);
            proof {
                assert(items@.to_set().contains(k));
                assert(start.in_round(round).contains(k));
                assert(start.inflight.contains_key(k) && start.inflight[k].round == round);
                if items@.take(i as int).contains(k) {
                    let j = choose|j: int| 0 <= j < i && items@.take(i as int)[j] == k;
                    assert(items@[j] == items@[i as int]);
                }
                assert(!done.contains(k));
                assert(self@.inflight.contains_key(k));
                assert(!self@.mineable.contains_key(k));
                lemma_inflight_remove(self.inflight@, k);
                lemma_mineable_insert(self.mineable@, k, (start.inflight[k].tx, start.inflight[k].size));
                assert forall|o: TxKey| #[trigger] next.contains(o) <==> items@.take(i as int + 1).contains(o) by {
                    let a = items@.take(i as int);
                    let b = items@.take(i as int + 1);
                    assert(b =~= a.push(k));
                    if a.contains(o) {
                        let j = choose|j: int| 0 <= j < a.len() && a[j] == o;
                        assert(b[j] == o);
                    }
                    if o == k {
                        assert(b[i as int] == k);
                    }
                }
            }
            let hi: u64 = self.high(k.0);
            let removed = map_remove(&mut self.inflight, &k);
            if let Some(e) = removed {
                self.inflight_bytes -= e.size;
                if k.1 > hi {
                    self.mineable_bytes += e.size;
                    self.mineable.insert(k, (e.tx, e.size));
                }
            }
            proof {
                assert(self@.mineable =~= start.released(next).mineable);
                assert(self@.inflight =~= start.released(next).inflight);
                done = next;
            }
            i += 1;
        }
        proof {
            assert(items@.take(i as int) =~= items@);
            assert forall|k: TxKey| #[trigger] done.contains(k) <==> keys.contains(k) by {
                assert(items@.to_set().contains(k) <==> items@.contains(k));
            }
            assert(done =~= keys);
            lemma_rolled_back_one_inv(start, round);
        }
    }

    /// Notes that the chain switched away from `rounds`: what was in flight there is mineable
    /// again, unless it went stale meanwhile.
    pub fn rollback(&mut self, rounds: &[u64])
        requires
            old(self).wf(),
        ensures
            final(self).wf(),
            final(self)@ == old(self)@.rolled_back(rounds@),
            final(self)@.total_bytes() <= old(self)@.total_bytes(),
            final(self).spec_batch_size() == old(self).spec_batch_size(),
    {
        let mut i: usize = 0;
        assert(rounds@.take(0) =~= Seq::empty());
        while i < rounds.len()
            invariant
                i <= rounds@.len(),
                self.wf(),
                self@ == old(self)@.rolled_back(rounds@.take(i as int)),
                self@.total_bytes() <= old(self)@.total_bytes(),
                self.batch_size == old(self).batch_size,
            decreases rounds@.len() - i,
        {
            assert(rounds@.take(i as int + 1).drop_last() =~= rounds@.take(i as int));
            self.rollback_round(rounds[i]);
            i += 1;
        }
        assert(rounds@.take(i as int) =~= rounds@);
    }

    /// Whether enough bytes are mineable to fill a batch.
    pub fn ready(&self) -> (r: bool)
        requires
            self.wf(),
        ensures
            r == (self@.mineable_bytes() >= self.spec_batch_size()),
    {
        self.mineable_bytes >= self.batch_size
    }

    /// Whether no transaction is mineable and in flight at once: so it is in every pool.
    pub fn key_sets_disjoint(&self) -> (r: bool)
        ensures
            r == (forall|k: TxKey| #[trigger] self@.mineable.contains_key(k) ==> !self@.inflight.contains_key(k)),
            self.wf() ==> r,
    {
        let keys = all_keys(&self.mineable);
        let mut i: usize = 0;
        while i < keys.len()
            invariant
                i <= keys@.len(),
                keys@.to_set() == self@.mineable.dom(),
                forall|j: int| 0 <= j < i ==> !self@.inflight.contains_key(#[trigger] keys@[j]),
            decreases keys@.len() - i,
        {
            let k: TxKey = keys[i];
            if map_contains(&self.inflight, &k) {
                assert(keys@.to_set().contains(k));
                assert(self@.mineable.contains_key(k));
                return false;
            }
            i += 1;
        }
        assert forall|k: TxKey| #[trigger] self@.mineable.contains_key(k) implies !self@.inflight.contains_key(k) by {
            assert(keys@.to_set().contains(k));
            let j = choose|j: int| 0 <= j < keys@.len() && keys@[j] == k;
            assert(keys@[j] == k);
        }
        true
    }

    /// Whether the byte counters can take this much more.
    pub fn has_room(&self, size: usize) -> (r: bool)
        requires
            self.wf(),
        ensures
            r == (self@.total_bytes() + size <= usize::MAX),
    {
        size <= usize::MAX - self.mineable_bytes - self.inflight_bytes
    }

    /// The mineable transaction of this name.
    pub fn mineable_tx(&self, client: usize, nonce: u64) -> (r: Option<Arc<Tx>>)
        ensures
            r == (if self@.mineable.contains_key((client, nonce)) {
                Some(self@.mineable[(client, nonce)].0)
            } else {
                None
            }),
    {
        match self.mineable.get(&(client, nonce)) {
            Some(e) => Some(share(&e.0)),
            None => None,
        }
    }

    /// The number of mineable transactions.
    pub fn mineable_len(&self) -> (r: usize)
        ensures
            r == self@.mineable.dom().len(),
    {
        self.mineable.len()
    }

    /// The bytes that the mineable transactions take.
    pub fn mineable_bytes(&self) -> (r: usize)
        requires
            self.wf(),
        ensures
            r == self@.mineable_bytes(),
    {
        self.mineable_bytes
    }

    /// Whether the transaction of this name is in flight.
    pub fn is_inflight(&self, client: usize, nonce: u64) -> (r: bool)
        ensures
            r == self@.inflight.contains_key((client, nonce)),
    {
        map_contains(&self.inflight, &(client, nonce))
    }

    /// The number of transactions in flight at the round, if the index has an entry for it.
    pub fn inflight_in_round(&self, round: u64) -> (r: Option<usize>)
        ensures
            match r {
                Some(n) => self@.by_round.contains_key(round) && n == self@.by_round[round].len(),
                None => !self@.by_round.contains_key(round),
            },
    {
        match map_get(&self.inflight_by_round, &round) {
            Some(set) => Some(set_len(set)),
            None => None,
        }
    }

    /// The highest nonce committed for the client.
    pub fn committed_nonce(&self, client: usize) -> (r: Option<u64>)
        ensures
            r == (if self@.committed.contains_key(client) {
                Some(self@.committed[client])
            } else {
                None
            }),
    {
        match map_get(&self.high_committed_nonce, &client) {
            Some(n) => Some(*n),
            None => None,
        }
    }
}

/// Switching away from a round keeps the pool's invariant.
proof fn lemma_rolled_back_one_inv<Tx: Transaction>(s: PoolState<Tx>, round: u64)
    requires
        s.inv(),
        s.by_round.contains_key(round),
        s.rolled_back_one(round).mineable.dom().finite(),
        s.rolled_back_one(round).inflight.dom().finite(),
    ensures
        s.rolled_back_one(round).inv(),
{
    let e = s.rolled_back_one(round);
    assert forall|r: u64, k: TxKey| #[trigger] e.in_round(r).contains(k) <==> e.inflight.contains_key(k)
        && e.inflight[k].round == r by {
        assert(s.in_round(r).contains(k) <==> s.inflight.contains_key(k) && s.inflight[k].round == r);
        assert(s.in_round(round).contains(k) <==> s.inflight.contains_key(k) && s.inflight[k].round == round);
    }
}

/// A client that none of the payload's transactions is from keeps its high mark.
proof fn lemma_high_unchanged<Tx: Transaction>(s: PoolState<Tx>, payload: Seq<Arc<Tx>>, client: usize)
    requires
        !from_client(payload, client),
    ensures
        s.committed_all(payload).high(client) == s.high(client),
    decreases payload.len(),
{
    if payload.len() > 0 {
        assert(payload[payload.len() - 1].spec_client_id() != client);
        assert forall|i: int| 0 <= i < payload.drop_last().len() implies
            (#[trigger] payload.drop_last()[i]).spec_client_id() != client by {
            assert(payload[i].spec_client_id() != client);
        }
        lemma_high_unchanged(s, payload.drop_last(), client);
    }
}

/// A mineable transaction that stays after a commit and a sweep is not stale.
proof fn lemma_committed_all<Tx: Transaction>(s: PoolState<Tx>, payload: Seq<Arc<Tx>>, k: TxKey)
    requires
        s.fresh(),
        s.committed_all(payload).swept(payload).mineable.contains_key(k),
    ensures
        !s.committed_all(payload).stale(k),
{
    lemma_mineable_shrinks(s, payload, k);
    if !from_client(payload, k.0) {
        lemma_high_unchanged(s, payload, k.0);
    }
}

proof fn lemma_mineable_shrinks<Tx: Transaction>(s: PoolState<Tx>, payload: Seq<Arc<Tx>>, k: TxKey)
    ensures
        s.committed_all(payload).mineable.contains_key(k) ==> s.mineable.contains_key(k),
    decreases payload.len(),
{
    if payload.len() > 0 {
        lemma_mineable_shrinks(s, payload.drop_last(), k);
    }
}

proof fn lemma_set_finite_of_inflight<Tx: Transaction>(s: PoolState<Tx>, round: u64)
    requires
        s.filed(),
        s.by_round.contains_key(round),
    ensures
        s.by_round[round].finite(),
{
    assert forall|k: TxKey| s.by_round[round].contains(k) implies s.inflight.dom().contains(k) by {
        assert(s.in_round(round).contains(k));
    }
    vstd::set_lib::lemma_set_subset_finite(s.inflight.dom(), s.by_round[round]);
}

proof fn lemma_size_sum_take(sizes: Seq<usize>, n: int)
    requires
        0 <= n <= sizes.len(),
    ensures
        size_sum(sizes.take(n)) <= size_sum(sizes),
    decreases sizes.len(),
{
    if n < sizes.len() {
        lemma_size_sum_take(sizes.drop_last(), n);
        assert(sizes.drop_last().take(n) =~= sizes.take(n));
    } else {
        assert(sizes.take(n) =~= sizes);
    }
}

} // verus!
