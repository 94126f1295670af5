//! Bursts of transactions and the latency of their confirmations.
use crate::client::settings::{Bench, ClientMode};
use crate::digest::Digest;
use crate::fnv_map::{map_insert, map_remove};
use crate::sorting::{law_numbers_sorted, number_inserted, numbers_sorted, sorted_numbers};
use crate::types::Transaction;
use fnv::FnvHashMap;
use vstd::prelude::*;

verus! {

/// A transaction that a load client can make up.
pub trait MockTx: Transaction {
    /// The bytes that a transaction takes besides its padding.
    const HEADER_SIZE: usize;

    fn mock_transaction(tx_id: usize, client_id: usize, tx_size: usize, sample: bool, sample_id: u64) -> Self;
}

/// The transactions that a client sends in a second.
pub fn transaction_rate(bench: &Bench) -> (r: u64)
    requires
        bench.burst_interval_ms > 0,
        bench.txs_per_burst * 1000 <= u64::MAX,
    ensures
        r == (bench.txs_per_burst * 1000) / bench.burst_interval_ms as int,
{
    (bench.txs_per_burst as u64 * 1000) / bench.burst_interval_ms
}

/// The only server that transactions go to, if not to all. A leader that is not known is taken to
/// be node 0.
pub fn target_eleader(mode: &ClientMode) -> (r: Option<usize>)
    ensures
        r == (match *mode {
            ClientMode::LetoBroadcast => None,
            ClientMode::ZeusEleaderOnly { eleader_id: Some(id) } => Some(id),
            ClientMode::ZeusEleaderOnly { eleader_id: None } => Some(0),
        }),
{
    match mode {
        ClientMode::LetoBroadcast => None,
        ClientMode::ZeusEleaderOnly { eleader_id } => match eleader_id {
            Some(id) => Some(*id),
            None => Some(0),
        },
    }
}

/// How many of `n` servers may fail to take a broadcast: fewer than a third of them.
pub fn fault_threshold(n: usize) -> (r: usize)
    ensures
        n > 0 ==> r == (n - 1) / 3,
        n == 0 ==> r == 0,
        n > 0 ==> 3 * r < n,
{
    if n == 0 {
        0
    } else {
        (n - 1) / 3
    }
}

/// The reports are at least a second apart.
pub fn emit_window_secs(bench: &Bench) -> (r: u64)
    ensures
        r == (if bench.bench_emit_window_secs >= 1 {
            bench.bench_emit_window_secs
        } else {
            1
        }),
{
    if bench.bench_emit_window_secs >= 1 {
        bench.bench_emit_window_secs
    } else {
        1
    }
}

/// A transaction to make up.
#[derive(Clone, Copy)]
pub struct TxPlan {
    pub tx_id: usize,
    /// Whether it is the sample of its burst.
    pub sample: bool,
}

/// The next burst: transactions with consecutive numbers, the first of them the sample.
pub fn burst_plan(tx_id: usize, txs_per_burst: usize) -> (r: Vec<TxPlan>)
    requires
        tx_id + txs_per_burst <= usize::MAX,
    ensures
        r@ == Seq::new(
            txs_per_burst as nat,
            |i: int| TxPlan { tx_id: (tx_id + i) as usize, sample: i == 0 },
        ),
{
    let mut out: Vec<TxPlan> = Vec::new();
    let mut i: usize = 0;
    while i < txs_per_burst
        invariant
            i <= txs_per_burst,
            tx_id + txs_per_burst <= usize::MAX,
            out@ =~= Seq::new(i as nat, |j: int| TxPlan { tx_id: (tx_id + j) as usize, sample: j == 0 }),
        decreases txs_per_burst - i,
    {
        out.push(TxPlan { tx_id: tx_id + i, sample: i == 0 });
        i += 1;
    }
    out
}

/// Makes up the transactions of a burst.
pub fn make_burst<Tx: MockTx>(plan: &Vec<TxPlan>, client_id: usize, tx_size: usize, sample_id: u64) -> (r: Vec<Tx>)
    ensures
        r@.len() == plan@.len(),
        forall|i: int| 0 <= i < plan@.len() ==> call_ensures(
            Tx::mock_transaction,
            (plan@[i].tx_id, client_id, tx_size, plan@[i].sample, sample_id),
            #[trigger] r@[i],
        ),
{
    let mut out: Vec<Tx> = Vec::new();
    let mut i: usize = 0;
    while i < plan.len()
        invariant
            i <= plan@.len(),
            out@.len() == i,
            forall|j: int| 0 <= j < i ==> call_ensures(
                Tx::mock_transaction,
                (plan@[j].tx_id, client_id, tx_size, plan@[j].sample, sample_id),
                #[trigger] out@[j],
            ),
        decreases plan@.len() - i,
    {
        let p: TxPlan = plan[i];
        out.push(Tx::mock_transaction(p.tx_id, client_id, tx_size, p.sample, sample_id));
        i += 1;
    }
    out
}

/// What there is to know of the latencies.
#[verifier::ext_equal]
pub struct LatencyState {
    /// When each unconfirmed transaction was sent, in microseconds.
    pub sent: Map<Digest, u64>,
    /// The latencies since the last report, in microseconds.
    pub samples: Seq<u64>,
}

impl LatencyState {
    /// A transaction is confirmed at time `now`: the time since it was sent is a sample, 0 if the
    /// clock went back. A transaction that is not under way changes nothing.
    pub open spec fn confirmed(self, hash: Digest, now: u64) -> Self {
        if self.sent.contains_key(hash) {
            let sent = self.sent[hash];
            LatencyState {
                sent: self.sent.remove(hash),
                samples: self.samples.push(
                    if now >= sent {
                        (now - sent) as u64
                    } else {
                        0
                    },
                ),
            }
        } else {
            self
        }
    }
}

/// All digests were sent at one time.
pub open spec fn all_sent(sent: Map<Digest, u64>, hashes: Seq<Digest>, now: u64) -> Map<Digest, u64>
    decreases hashes.len(),
{
    if hashes.len() == 0 {
        sent
    } else {
        all_sent(sent, hashes.drop_last(), now).insert(hashes.last(), now)
    }
}

/// The transactions under way and the latencies of those that are confirmed.
pub struct LatencyTracker {
    send_ts: FnvHashMap<Digest, u64>,
    latency_hist: Vec<u64>,
}

impl LatencyTracker {
    pub closed spec fn view(&self) -> LatencyState {
        LatencyState { sent: self.send_ts@, samples: self.latency_hist@ }
    }

    pub fn new() -> (r: Self)
        ensures
            r@ == (LatencyState { sent: Map::empty(), samples: Seq::empty() }),
    {
        LatencyTracker { send_ts: FnvHashMap::default(), latency_hist: Vec::new() }
    }

    /// A burst was sent at time `now`.
    pub fn on_burst(&mut self, hashes: &Vec<Digest>, now: u64)
        ensures
            final(self)@ == (LatencyState {
                sent: all_sent(old(self)@.sent, hashes@, now),
                ..old(self)@
            }),
    {
        let mut i: usize = 0;
        assert(hashes@.take(0) =~= Seq::empty());
        while i < hashes.len()
            invariant
                i <= hashes@.len(),
                self@ == (LatencyState {
                    sent: all_sent(old(self)@.sent, hashes@.take(i as int), now),
                    ..old(self)@
                }),
            decreases hashes@.len() - i,
        {
            assert(hashes@.take(i as int + 1).drop_last() =~= hashes@.take(i as int));
            map_insert(&mut self.send_ts, hashes[i], now);
            i += 1;
        }
        assert(hashes@.take(i as int) =~= hashes@);
    }

    /// A transaction is confirmed at time `now`. Only the first confirmation counts.
    pub fn on_confirmation(&mut self, hash: &Digest, now: u64)
        ensures
            final(self)@ == old(self)@.confirmed(*hash, now),
    {
        if let Some(sent) = map_remove(&mut self.send_ts, hash) {
            self.latency_hist.push(
                if now >= sent {
                    now - sent
                } else {
                    0
                },
            );
        } else {
            assert(self@.sent =~= old(self)@.sent);
        }
    }

    /// Takes the latencies since the last report.
    pub fn take_samples(&mut self) -> (r: Vec<u64>)
        ensures
            r@ == old(self)@.samples,
            final(self)@ == (LatencyState { samples: Seq::empty(), ..old(self)@ }),
    {
        let mut out: Vec<u64> = Vec::new();
        out.append(&mut self.latency_hist);
        assert(out@ =~= old(self)@.samples);
        out
    }
}

/// Only the first confirmation of a transaction counts.
pub proof fn law_confirmation_counts_once(s: LatencyState, hash: Digest, first: u64, second: u64)
    ensures
        s.confirmed(hash, first).confirmed(hash, second) == s.confirmed(hash, first),
{
}

/// Whom a burst goes to.
#[derive(PartialEq, Eq, Debug, Structural, Clone, Copy)]
pub enum BurstTarget {
    /// All servers; the send is over once all but this many have taken it.
    All { fault_threshold: usize },
    /// One server.
    One(usize),
}

/// A burst to make up and send.
pub struct Burst {
    pub plan: Vec<TxPlan>,
    pub sample_id: u64,
    pub target: BurstTarget,
}

/// A client that makes load.
pub struct Stressor {
    num_servers: usize,
    txs_per_burst: usize,
    mode: ClientMode,
    tx_id: usize,
    sample_id: u64,
    tracker: LatencyTracker,
}

/// What there is to know of a client.
#[verifier::ext_equal]
pub struct StressorState {
    pub num_servers: usize,
    pub txs_per_burst: usize,
    pub mode: ClientMode,
    /// The number of the next transaction.
    pub tx_id: usize,
    /// The number of the next sample.
    pub sample_id: u64,
    pub latencies: LatencyState,
}

impl StressorState {
    /// The transactions of the next burst: consecutive numbers, the first of them the sample.
    pub open spec fn plan(self) -> Seq<TxPlan> {
        Seq::new(
            self.txs_per_burst as nat,
            |i: int| TxPlan { tx_id: (self.tx_id + i) as usize, sample: i == 0 },
        )
    }

    /// The client once a burst is made up.
    pub open spec fn burst(self) -> Self {
        StressorState {
            tx_id: (self.tx_id + self.txs_per_burst) as usize,
            sample_id: (self.sample_id + 1) as u64,
            ..self
        }
    }

    /// The client once so many bursts are made up.
    pub open spec fn bursts(self, ticks: nat) -> Self
        decreases ticks,
    {
        if ticks == 0 {
            self
        } else {
            self.bursts((ticks - 1) as nat).burst()
        }
    }

    /// The transactions of so many bursts.
    pub open spec fn plans(self, ticks: nat) -> Seq<TxPlan>
        decreases ticks,
    {
        if ticks == 0 {
            Seq::empty()
        } else {
            self.plans((ticks - 1) as nat).add(self.bursts((ticks - 1) as nat).plan())
        }
    }

    /// Whom the bursts go to.
    pub open spec fn target(self) -> BurstTarget {
        match self.mode {
            ClientMode::LetoBroadcast => BurstTarget::All {
                fault_threshold: if self.num_servers == 0 {
                    0
                } else {
                    ((self.num_servers - 1) / 3) as usize
                },
            },
            ClientMode::ZeusEleaderOnly { eleader_id: Some(id) } => BurstTarget::One(id),
            ClientMode::ZeusEleaderOnly { eleader_id: None } => BurstTarget::One(0),
        }
    }
}

impl Stressor {
    pub closed spec fn view(&self) -> StressorState {
        StressorState {
            num_servers: self.num_servers,
            txs_per_burst: self.txs_per_burst,
            mode: self.mode,
            tx_id: self.tx_id,
            sample_id: self.sample_id,
            latencies: self.tracker@,
        }
    }

    /// A client that has sent nothing yet. `sample_id` is the number of its first sample.
    pub fn new(num_servers: usize, bench: &Bench, mode: ClientMode, sample_id: u64) -> (r: Self)
        ensures
            r@ == (StressorState {
                num_servers,
                txs_per_burst: bench.txs_per_burst,
                mode,
                tx_id: 0,
                sample_id,
                latencies: LatencyState { sent: Map::empty(), samples: Seq::empty() },
            }),
    {
        Stressor {
            num_servers,
            txs_per_burst: bench.txs_per_burst,
            mode,
            tx_id: 0,
            sample_id,
            tracker: LatencyTracker::new(),
        }
    }

    /// The burst timer fired.
    pub fn on_burst(&mut self) -> (r: Burst)
        requires
            old(self)@.tx_id + old(self)@.txs_per_burst <= usize::MAX,
            old(self)@.sample_id < u64::MAX,
        ensures
            r.plan@ == old(self)@.plan(),
            r.sample_id == old(self)@.sample_id,
            r.target == old(self)@.target(),
            final(self)@ == old(self)@.burst(),
    {
        let plan = burst_plan(self.tx_id, self.txs_per_burst);
        assert(plan@ =~= self@.plan());
        let target = match target_eleader(&self.mode) {
            Some(id) => BurstTarget::One(id),
            None => BurstTarget::All { fault_threshold: fault_threshold(self.num_servers) },
        };
        let sample_id: u64 = self.sample_id;
        self.tx_id = self.tx_id + self.txs_per_burst;
        self.sample_id = self.sample_id + 1;
        Burst { plan, sample_id, target }
    }

    /// The transactions of these digests were sent at time `now`.
    pub fn on_sent(&mut self, hashes: &Vec<Digest>, now: u64)
        ensures
            final(self)@ == (StressorState {
                latencies: LatencyState {
                    sent: all_sent(old(self)@.latencies.sent, hashes@, now),
                    ..old(self)@.latencies
                },
                ..old(self)@
            }),
    {
        self.tracker.on_burst(hashes, now);
    }

    /// A transaction is confirmed at time `now`. Only the first confirmation counts.
    pub fn on_confirmation(&mut self, hash: &Digest, now: u64)
        ensures
            final(self)@ == (StressorState {
                latencies: old(self)@.latencies.confirmed(*hash, now),
                ..old(self)@
            }),
    {
        self.tracker.on_confirmation(hash, now);
    }

    /// The report is due: takes the latencies since the last one.
    pub fn on_emit(&mut self) -> (r: Vec<u64>)
        ensures
            r@ == old(self)@.latencies.samples,
            final(self)@ == (StressorState {
                latencies: LatencyState { samples: Seq::empty(), ..old(self)@.latencies },
                ..old(self)@
            }),
    {
        self.tracker.take_samples()
    }
}

/// Over any number of bursts, the transactions have consecutive numbers.
pub proof fn law_numbers_are_consecutive(s: StressorState, ticks: nat)
    requires
        s.tx_id + ticks * s.txs_per_burst <= usize::MAX,
    ensures
        s.plans(ticks).len() == ticks * s.txs_per_burst,
        forall|i: int| 0 <= i < s.plans(ticks).len() ==> (#[trigger] s.plans(ticks)[i]).tx_id == s.tx_id + i,
        s.bursts(ticks).tx_id == s.tx_id + ticks * s.txs_per_burst,
        s.bursts(ticks).txs_per_burst == s.txs_per_burst,
    decreases ticks,
{
    if ticks > 0 {
        let n = (ticks - 1) as nat;
        let k = s.txs_per_burst as nat;
        assert(ticks * k == n * k + k) by (nonlinear_arith)
            requires
                ticks == n + 1,
        ;
        law_numbers_are_consecutive(s, n);
        let before = s.plans(n);
        let new = s.bursts(n).plan();
        assert forall|i: int| 0 <= i < s.plans(ticks).len() implies (#[trigger] s.plans(ticks)[i]).tx_id == s.tx_id + i by {
            if i < before.len() {
                assert(s.plans(ticks)[i] == before[i]);
            } else {
                assert(s.plans(ticks)[i] == new[i - before.len()]);
            }
        }
    } else {
        assert(ticks * s.txs_per_burst == 0) by (nonlinear_arith)
            requires
                ticks == 0,
        ;
    }
}

/// The burst of each tick, counted from 0: as many transactions as a burst has, numbered on from the
/// ticks before, the first of them the sample, under the sample number of the tick.
pub proof fn law_burst_of_a_tick(s: StressorState, tick: nat)
    requires
        s.tx_id + (tick + 1) * s.txs_per_burst <= usize::MAX,
        s.sample_id + tick <= u64::MAX,
    ensures
        ({
            let plan = s.bursts(tick).plan();
            &&& plan.len() == s.txs_per_burst
            &&& forall|i: int|
                0 <= i < plan.len() ==> (#[trigger] plan[i]).tx_id == s.tx_id + tick * s.txs_per_burst + i
            &&& forall|i: int| 0 <= i < plan.len() ==> ((#[trigger] plan[i]).sample <==> i == 0)
        }),
        s.bursts(tick).sample_id == s.sample_id + tick,
        s.bursts(tick).target() == s.target(),
    decreases tick,
{
    let k = s.txs_per_burst as nat;
    assert((tick + 1) * k == tick * k + k) by (nonlinear_arith);
    law_numbers_are_consecutive(s, tick);
    if tick > 0 {
        law_burst_of_a_tick(s, (tick - 1) as nat);
    }
}

/// The median of some microsecond values: the middle one of an odd number, the mean of the two
/// middle ones of an even number, rounded down.
pub open spec fn median_of(hist: Seq<u64>) -> int {
    let v = numbers_sorted(hist);
    let mid = v.len() as int / 2;
    if v.len() % 2 == 0 {
        (v[mid - 1] + v[mid]) / 2
    } else {
        v[mid] as int
    }
}

/// The median of at least one value.
pub fn median_us(hist: &Vec<u64>) -> (r: u64)
    requires
        hist@.len() > 0,
    ensures
        r == median_of(hist@),
{
    let v = sorted_numbers(hist);
    let mid: usize = v.len() / 2;
    proof {
        law_numbers_sorted(hist@);
    }
    if v.len() % 2 == 0 {
        assert(v@[mid - 1] <= v@[mid as int]);
        v[mid - 1] + (v[mid] - v[mid - 1]) / 2
    } else {
        v[mid]
    }
}

/// How many of the values are below a bound.
pub open spec fn count_below(s: Seq<u64>, bound: int) -> nat
    decreases s.len(),
{
    if s.len() == 0 {
        0
    } else {
        count_below(s.drop_last(), bound) + if s.last() < bound {
            1nat
        } else {
            0nat
        }
    }
}

/// How many of the values are above a bound.
pub open spec fn count_above(s: Seq<u64>, bound: int) -> nat
    decreases s.len(),
{
    if s.len() == 0 {
        0
    } else {
        count_above(s.drop_last(), bound) + if s.last() > bound {
            1nat
        } else {
            0nat
        }
    }
}

proof fn lemma_counts_inserted(s: Seq<u64>, x: u64, bound: int)
    ensures
        count_below(number_inserted(s, x), bound) == count_below(s.push(x), bound),
        count_above(number_inserted(s, x), bound) == count_above(s.push(x), bound),
    decreases s.len(),
{
    assert(s.push(x).drop_last() =~= s);
    if s.len() > 0 && s.last() > x {
        let rest = s.drop_last();
        lemma_counts_inserted(rest, x, bound);
        assert(rest.push(x).drop_last() =~= rest);
        let all = number_inserted(s, x);
        assert(all.drop_last() =~= number_inserted(rest, x));
        assert(count_below(all, bound) == count_below(rest.push(x), bound) + count_below(s, bound) - count_below(rest, bound));
        assert(count_above(all, bound) == count_above(rest.push(x), bound) + count_above(s, bound) - count_above(rest, bound));
    }
}

proof fn lemma_counts_sorted(s: Seq<u64>, bound: int)
    ensures
        count_below(numbers_sorted(s), bound) == count_below(s, bound),
        count_above(numbers_sorted(s), bound) == count_above(s, bound),
    decreases s.len(),
{
    if s.len() > 0 {
        let rest = s.drop_last();
        lemma_counts_sorted(rest, bound);
        lemma_counts_inserted(numbers_sorted(rest), s.last(), bound);
        assert(numbers_sorted(rest).push(s.last()).drop_last() =~= numbers_sorted(rest));
    }
}

proof fn lemma_few_below(s: Seq<u64>, bound: int, n: int)
    requires
        0 <= n <= s.len(),
        forall|i: int| n <= i < s.len() ==> #[trigger] s[i] >= bound,
    ensures
        count_below(s, bound) <= n,
    decreases s.len(),
{
    if s.len() > n {
        assert(s[s.len() - 1] >= bound);
        lemma_few_below(s.drop_last(), bound, n);
    } else if s.len() > 0 {
        lemma_few_below(s.drop_last(), bound, n - 1);
    }
}

proof fn lemma_few_above(s: Seq<u64>, bound: int, n: int)
    requires
        0 <= n <= s.len(),
        forall|i: int| 0 <= i < n ==> #[trigger] s[i] <= bound,
    ensures
        count_above(s, bound) <= s.len() - n,
    decreases s.len(),
{
    if s.len() > n {
        lemma_few_above(s.drop_last(), bound, n);
    } else if s.len() > 0 {
        assert(s[n - 1] <= bound);
        lemma_few_above(s.drop_last(), bound, n - 1);
    }
}

/// At most half of the values are below the median and at most half are above it; it lies between two
/// of the values, and of an odd number of values it is one.
pub proof fn law_median_is_in_the_middle(hist: Seq<u64>)
    requires
        hist.len() > 0,
    ensures
        count_below(hist, median_of(hist)) <= hist.len() / 2,
        count_above(hist, median_of(hist)) <= hist.len() / 2,
        exists|i: int, j: int|
            0 <= i < hist.len() && 0 <= j < hist.len() && #[trigger] hist[i] <= median_of(hist) <= #[trigger] hist[j],
        hist.len() % 2 == 1 ==> hist.contains(median_of(hist) as u64) && 0 <= median_of(hist) <= u64::MAX,
{
    broadcast use vstd::seq_lib::group_to_multiset_ensures;

    law_numbers_sorted(hist);
    let v = numbers_sorted(hist);
    let m = median_of(hist);
    let mid = v.len() as int / 2;
    lemma_counts_sorted(hist, m);
    if v.len() % 2 == 0 {
        assert(v[mid - 1] <= v[mid]);
        lemma_few_above(v, m, mid);
        lemma_between(hist, mid - 1, mid);
    } else {
        lemma_few_above(v, m, mid + 1);
        lemma_between(hist, mid, mid);
        assert(v.contains(v[mid]));
        assert(v.to_multiset().contains(v[mid]));
    }
    lemma_few_below(v, m, mid);
}

proof fn lemma_between(hist: Seq<u64>, low: int, high: int)
    requires
        0 <= low <= high < numbers_sorted(hist).len(),
        numbers_sorted(hist)[low] <= median_of(hist) <= numbers_sorted(hist)[high],
    ensures
        exists|i: int, j: int|
            0 <= i < hist.len() && 0 <= j < hist.len() && #[trigger] hist[i] <= median_of(hist) <= #[trigger] hist[j],
{
    broadcast use vstd::seq_lib::group_to_multiset_ensures;

    law_numbers_sorted(hist);
    let v = numbers_sorted(hist);
    assert(v.contains(v[low]) && v.contains(v[high]));
    assert(v.to_multiset().contains(v[low]) && v.to_multiset().contains(v[high]));
    assert(hist.contains(v[low]) && hist.contains(v[high]));
    let i = choose|i: int| 0 <= i < hist.len() && hist[i] == v[low];
    let j = choose|j: int| 0 <= j < hist.len() && hist[j] == v[high];
    assert(hist[i] <= median_of(hist) <= hist[j]);
}

/// The median does not depend on the order of the values.
pub proof fn law_median_ignores_order(hist: Seq<u64>, other: Seq<u64>)
    requires
        hist.to_multiset() == other.to_multiset(),
    ensures
        median_of(hist) == median_of(other),
{
    law_numbers_sorted(hist);
    law_numbers_sorted(other);
    let leq = |a: u64, b: u64| a <= b;
    let v = numbers_sorted(hist);
    let w = numbers_sorted(other);
    assert(vstd::relations::sorted_by(v, leq));
    assert(vstd::relations::sorted_by(w, leq));
    vstd::seq_lib::lemma_sorted_unique(v, w, leq);
}

/// A confirmation of a transaction that was sent yields its latency, behind the samples so far, and the
/// transaction is not waited for any more. One that was not sent yields nothing, and no other transaction
/// is touched.
pub proof fn law_confirmation_yields_the_latency(s: LatencyState, hash: Digest, now: u64)
    ensures
        ({
            let e = s.confirmed(hash, now);
            &&& !s.sent.contains_key(hash) ==> e == s
            &&& s.sent.contains_key(hash) ==> e.sent == s.sent.remove(hash)
            &&& s.sent.contains_key(hash) && s.sent[hash] <= now ==> e.samples == s.samples.push(
                (now - s.sent[hash]) as u64,
            )
            &&& s.sent.contains_key(hash) && s.sent[hash] > now ==> e.samples == s.samples.push(0)
        }),
{
}

/// All transactions of a burst are noted with the time of the burst, and no other one changes.
pub proof fn law_burst_is_noted(sent: Map<Digest, u64>, hashes: Seq<Digest>, now: u64, hash: Digest)
    ensures
        ({
            let e = all_sent(sent, hashes, now);
            &&& e.contains_key(hash) <==> sent.contains_key(hash) || hashes.contains(hash)
            &&& hashes.contains(hash) ==> e[hash] == now
            &&& !hashes.contains(hash) && sent.contains_key(hash) ==> e[hash] == sent[hash]
        }),
    decreases hashes.len(),
{
    if hashes.len() > 0 {
        let rest = hashes.drop_last();
        law_burst_is_noted(sent, rest, now, hash);
        if rest.contains(hash) {
            let i = choose|i: int| 0 <= i < rest.len() && rest[i] == hash;
            assert(hashes[i] == hash);
        }
        if hashes.contains(hash) && hash != hashes.last() {
            let i = choose|i: int| 0 <= i < hashes.len() && hashes[i] == hash;
            assert(rest[i] == hash);
        }
        assert(hashes[hashes.len() - 1] == hashes.last());
    }
}

/// Where a burst goes: to all servers, with the faults that so many can bear, or to the one that leads
/// for the clients, server 0 if none is named. A burst changes neither.
pub proof fn law_where_a_burst_goes(s: StressorState, id: usize)
    ensures
        s.mode == ClientMode::LetoBroadcast ==> (s.target() matches BurstTarget::All { fault_threshold } && 3
            * fault_threshold < (if s.num_servers == 0 {
            1
        } else {
            s.num_servers as int
        }) <= 3 * fault_threshold + 3),
        s.mode == (ClientMode::ZeusEleaderOnly { eleader_id: Some(id) }) ==> s.target() == BurstTarget::One(id),
        s.mode == (ClientMode::ZeusEleaderOnly { eleader_id: None }) ==> s.target() == BurstTarget::One(0),
        s.burst().mode == s.mode && s.burst().num_servers == s.num_servers && s.burst().txs_per_burst
            == s.txs_per_burst && s.burst().latencies == s.latencies,
{
}

/// The median is the middle value, or the mean of the two middle ones rounded down.
pub proof fn law_median_of_two_middles(hist: Seq<u64>)
    requires
        hist.len() > 0,
    ensures
        ({
            let v = numbers_sorted(hist);
            let mid = hist.len() as int / 2;
            &&& v.len() == hist.len()
            &&& hist.len() % 2 == 1 ==> median_of(hist) == v[mid]
            &&& hist.len() % 2 == 0 ==> 2 * median_of(hist) <= v[mid - 1] + v[mid] <= 2 * median_of(hist) + 1
        }),
{
    crate::sorting::law_numbers_sorted(hist);
}

} // verus!
