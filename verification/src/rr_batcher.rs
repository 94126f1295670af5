//! The round-robin batcher: the leader of a round seals one batch for it.
use crate::tx_pool::{keys_of, size_sum, PoolState, Txpool};
use crate::types::{Batch, Transaction};
use std::sync::Arc;
use std::time::Duration;
use vstd::prelude::*;

verus! {

/// What the consensus engine tells the batcher.
pub enum BatcherConsensusMsg<Id, Tx> {
    /// A new round begins, with this leader.
    NewRound { leader: Id, round: u64 },
    /// A proposal of `round` carries `batch`; `sizes` gives the encoded size of each transaction.
    Proposed { batch: Batch<Tx>, sizes: Vec<usize>, round: u64 },
    /// `batch` was decided at `round`.
    Committed { batch: Batch<Tx>, round: u64 },
    /// The chain switched away from `rounds`.
    Rollback { rounds: Vec<u64> },
}

/// How a batcher is set up.
pub struct Parameters<Id> {
    pub my_id: Id,
    pub initial_leader: Id,
    pub batch_size: usize,
    pub batch_timeout: Duration,
}

impl<Id> Parameters<Id> {
    pub fn new(my_id: Id, initial_leader: Id, batch_size: usize, batch_timeout: Duration) -> (r: Self)
        ensures
            r == (Parameters { my_id, initial_leader, batch_size, batch_timeout }),
    {
        Self { my_id, initial_leader, batch_size, batch_timeout }
    }
}

/// What the caller owes after an event.
pub struct BatcherStep<Tx> {
    /// The batch to hand to the proposer.
    pub batch: Option<Batch<Tx>>,
    /// Whether the batch timer starts anew.
    pub reset_timer: bool,
}

/// The state of the batcher.
#[verifier::reject_recursive_types(Tx)]
pub struct RRBatcher<Tx> {
    my_id: usize,
    current_leader: usize,
    current_round: u64,
    proposed: bool,
    pool: Txpool<Tx>,
}

/// What there is to know of a batcher.
pub struct BatcherState<Tx> {
    pub my_id: usize,
    pub leader: usize,
    pub round: u64,
    pub proposed: bool,
    pub pool: PoolState<Tx>,
    pub batch_size: usize,
}

/// What can happen to a batcher.
pub enum BatcherEvent<Tx> {
    /// The batch timer fired.
    Timer,
    /// A client's transaction of this size arrived.
    Arrival(Arc<Tx>, usize),
    /// The consensus engine reports.
    Consensus(BatcherConsensusMsg<usize, Tx>),
}

impl<Tx: Transaction> BatcherState<Tx> {
    /// A batch may be sealed: this node leads the round and has not proposed in it.
    pub open spec fn can_propose(self) -> bool {
        self.my_id == self.leader && !self.proposed
    }

    /// Enough bytes are mineable to fill a batch.
    pub open spec fn ready(self) -> bool {
        self.pool.mineable_bytes() >= self.batch_size
    }

    /// The step seals a batch in state `self` and leads to `next`.
    pub open spec fn sealed(self, step: BatcherStep<Tx>, next: Self) -> bool {
        &&& step.batch is Some
        &&& step.reset_timer
        &&& self.pool.batch_drawn(step.batch->0.payload@, self.batch_size)
        &&& next == (BatcherState {
            proposed: true,
            pool: self.pool.drawn(keys_of(step.batch->0.payload@), self.round),
            ..self
        })
    }

    /// The step leads to `next` without a batch.
    pub open spec fn quiet(self, step: BatcherStep<Tx>, next: Self) -> bool {
        step.batch is None && next == self
    }

    /// The event, with this step, leads to `next`.
    pub open spec fn steps_to(self, event: BatcherEvent<Tx>, step: BatcherStep<Tx>, next: Self) -> bool {
        match event {
            BatcherEvent::Timer => if self.can_propose() {
                self.sealed(step, next)
            } else {
                self.quiet(step, next) && !step.reset_timer
            },
            BatcherEvent::Arrival(tx, size) => {
                let mid = BatcherState { pool: self.pool.added(tx, size), ..self };
                if mid.can_propose() && mid.ready() {
                    mid.sealed(step, next)
                } else {
                    mid.quiet(step, next) && !step.reset_timer
                }
            },
            BatcherEvent::Consensus(msg) => {
                let mid = self.taken(msg);
                if msg is NewRound && mid.can_propose() && mid.ready() {
                    mid.sealed(step, next)
                } else {
                    mid.quiet(step, next) && step.reset_timer == (msg is NewRound)
                }
            },
        }
    }

    /// The event begins a round.
    pub open spec fn begins_round(event: BatcherEvent<Tx>) -> bool {
        event matches BatcherEvent::Consensus(msg) && msg is NewRound
    }

    /// The bytes that an event may add.
    pub open spec fn entering(msg: BatcherConsensusMsg<usize, Tx>) -> nat {
        match msg {
            BatcherConsensusMsg::Proposed { batch, sizes, round } => size_sum(sizes@),
            _ => 0,
        }
    }

    /// The batcher's state once a message has been taken in, before it may seal a batch.
    pub open spec fn taken(self, msg: BatcherConsensusMsg<usize, Tx>) -> Self {
        match msg {
            BatcherConsensusMsg::NewRound { leader, round } => BatcherState {
                leader,
                round,
                proposed: false,
                ..self
            },
            BatcherConsensusMsg::Proposed { batch, sizes, round } => BatcherState {
                pool: self.pool.admitted(batch.payload@, sizes@, round),
                ..self
            },
            BatcherConsensusMsg::Committed { batch, round } => BatcherState {
                pool: self.pool.committed_batch(batch.payload@, round),
                ..self
            },
            BatcherConsensusMsg::Rollback { rounds } => BatcherState {
                pool: self.pool.rolled_back(rounds@),
                ..self
            },
        }
    }
}

impl<Tx: Transaction> RRBatcher<Tx> {
    pub closed spec fn view(&self) -> BatcherState<Tx> {
        BatcherState {
            my_id: self.my_id,
            leader: self.current_leader,
            round: self.current_round,
            proposed: self.proposed,
            pool: self.pool@,
            batch_size: self.pool.spec_batch_size(),
        }
    }

    pub closed spec fn wf(&self) -> bool {
        self.pool.wf()
    }

    /// What every batcher keeps: its pool is sound.
    pub proof fn lemma_wf(&self)
        requires
            self.wf(),
        ensures
            self@.pool.inv(),
            self@.pool.total_bytes() <= usize::MAX,
    {
        self.pool.lemma_wf();
    }

    /// A batcher at round 0 with an empty pool.
    pub fn new(params: &Parameters<usize>) -> (r: Self)
        ensures
            r.wf(),
            r@ == (BatcherState::<Tx> {
                my_id: params.my_id,
                leader: params.initial_leader,
                round: 0,
                proposed: false,
                pool: PoolState::new(),
                batch_size: params.batch_size,
            }),
    {
        Self {
            my_id: params.my_id,
            current_leader: params.initial_leader,
            current_round: 0,
            proposed: false,
            pool: Txpool::new(params.batch_size),
        }
    }

    /// Whether the timer may seal a batch.
    pub fn can_propose(&self) -> (r: bool)
        ensures
            r == self@.can_propose(),
    {
        self.my_id == self.current_leader && !self.proposed
    }

    /// Whether the pool's byte counters can take this much more.
    pub fn has_room(&self, size: usize) -> (r: bool)
        requires
            self.wf(),
        ensures
            r == (self@.pool.total_bytes() + size <= usize::MAX),
    {
        self.pool.has_room(size)
    }

    fn seal(&mut self) -> (r: BatcherStep<Tx>)
        requires
            old(self).wf(),
        ensures
            final(self).wf(),
            old(self)@.sealed(r, final(self)@),
    {
        let batch = self.pool.make_batch(self.current_round);
        self.proposed = true;
        BatcherStep { batch: Some(batch), reset_timer: true }
    }

    /// The batch timer fired: the leader seals what there is, once per round.
    pub fn on_timer(&mut self) -> (r: BatcherStep<Tx>)
        requires
            old(self).wf(),
        ensures
            final(self).wf(),
            old(self)@.steps_to(BatcherEvent::Timer, r, final(self)@),
    {
        if self.can_propose() {
            self.seal()
        } else {
            BatcherStep { batch: None, reset_timer: false }
        }
    }

    /// A client's transaction arrived. The leader seals a batch at once if that fills one.
    pub fn on_tx(&mut self, tx: Tx, size: usize) -> (r: BatcherStep<Tx>)
        requires
            old(self).wf(),
            old(self)@.pool.total_bytes() + size <= usize::MAX,
        ensures
            final(self).wf(),
            old(self)@.steps_to(BatcherEvent::Arrival(Arc::new(tx), size), r, final(self)@),
    {
        self.pool.add_tx(tx, size);
        if self.can_propose() && self.pool.ready() {
            self.seal()
        } else {
            BatcherStep { batch: None, reset_timer: false }
        }
    }

    /// The consensus engine reports. Only the start of a round restarts the timer and may seal a
    /// batch.
    pub fn on_consensus(&mut self, msg: BatcherConsensusMsg<usize, Tx>) -> (r: BatcherStep<Tx>)
        requires
            old(self).wf(),
            msg matches BatcherConsensusMsg::Proposed { batch, sizes, .. } ==> sizes@.len()
                == batch.payload@.len(),
            old(self)@.pool.total_bytes() + BatcherState::<Tx>::entering(msg) <= usize::MAX,
        ensures
            final(self).wf(),
            old(self)@.steps_to(BatcherEvent::Consensus(msg), r, final(self)@),
    {
        match msg {
            BatcherConsensusMsg::NewRound { leader, round } => {
                self.current_leader = leader;
                self.current_round = round;
                self.proposed = false;
                if self.can_propose() && self.pool.ready() {
                    self.seal()
                } else {
                    BatcherStep { batch: None, reset_timer: true }
                }
            },
            BatcherConsensusMsg::Proposed { batch, sizes, round } => {
                self.pool.admit_proposal(&batch, &sizes, round);
                BatcherStep { batch: None, reset_timer: false }
            },
            BatcherConsensusMsg::Committed { batch, round } => {
                self.pool.commit(&batch, round);
                BatcherStep { batch: None, reset_timer: false }
            },
            BatcherConsensusMsg::Rollback { rounds } => {
                self.pool.rollback(&rounds);
                BatcherStep { batch: None, reset_timer: false }
            },
        }
    }
}

/// The batchers of a run, from one event to the next.
pub open spec fn is_run<Tx: Transaction>(
    states: Seq<BatcherState<Tx>>,
    events: Seq<BatcherEvent<Tx>>,
    steps: Seq<BatcherStep<Tx>>,
) -> bool {
    &&& states.len() == events.len() + 1
    &&& steps.len() == events.len()
    &&& forall|i: int|
        0 <= i < events.len() ==> #[trigger] states[i].steps_to(events[i], steps[i], states[i + 1])
}

/// In a run of any events, no two batches are sealed without the start of a round between them, and
/// every batch is sealed by the leader of its round.
pub proof fn law_one_batch_per_round<Tx: Transaction>(
    states: Seq<BatcherState<Tx>>,
    events: Seq<BatcherEvent<Tx>>,
    steps: Seq<BatcherStep<Tx>>,
    i: int,
    j: int,
)
    requires
        is_run(states, events, steps),
        0 <= i < j < events.len(),
        steps[i].batch is Some,
        forall|k: int| i < k <= j ==> !BatcherState::begins_round(#[trigger] events[k]),
    ensures
        states[i + 1].leader == states[i + 1].my_id,
        states[j + 1].proposed,
        steps[j].batch is None,
    decreases j - i,
{
    assert(states[i].steps_to(events[i], steps[i], states[i + 1]));
    assert(states[j].steps_to(events[j], steps[j], states[j + 1]));
    assert(!BatcherState::begins_round(events[j]));
    if j > i + 1 {
        law_one_batch_per_round(states, events, steps, i, j - 1);
    }
}

/// In a run of any events, only the leader seals a batch.
pub proof fn law_only_the_leader_seals<Tx: Transaction>(
    states: Seq<BatcherState<Tx>>,
    events: Seq<BatcherEvent<Tx>>,
    steps: Seq<BatcherStep<Tx>>,
    i: int,
)
    requires
        is_run(states, events, steps),
        0 <= i < events.len(),
    ensures
        states[i + 1].leader != states[i + 1].my_id ==> steps[i].batch is None,
        steps[i].batch is Some ==> states[i + 1].proposed,
        states[i + 1].my_id == states[i].my_id,
        states[i + 1].leader == states[i].leader || BatcherState::begins_round(events[i]),
{
    assert(states[i].steps_to(events[i], steps[i], states[i + 1]));
}

/// A batch may be sealed by the node that leads the round and has not proposed in it, and there is enough
/// for one once the bytes that can be mined fill it.
pub proof fn law_when_a_batch_may_be_sealed<Tx: Transaction>(s: BatcherState<Tx>)
    ensures
        s.can_propose() <==> s.leader == s.my_id && !s.proposed,
        s.ready() <==> s.pool.mineable_bytes() >= s.batch_size,
{
}

/// A timer seals a batch exactly if this node leads and has not proposed, whatever there is to propose. An
/// arrival, or the start of a round, does so only if the pool fills a batch by then. No other event does,
/// and whatever was sealed is handed on, taken from the pool for the round, and restarts the timer.
pub proof fn law_when_batches_are_sealed<Tx: Transaction>(
    s: BatcherState<Tx>,
    event: BatcherEvent<Tx>,
    step: BatcherStep<Tx>,
    next: BatcherState<Tx>,
)
    requires
        s.steps_to(event, step, next),
    ensures
        ({
            let mid = match event {
                BatcherEvent::Timer => s,
                BatcherEvent::Arrival(tx, size) => BatcherState { pool: s.pool.added(tx, size), ..s },
                BatcherEvent::Consensus(msg) => s.taken(msg),
            };
            let may = mid.leader == mid.my_id && !mid.proposed;
            let full = mid.pool.mineable_bytes() >= mid.batch_size;
            let starts = event matches BatcherEvent::Consensus(msg) && msg is NewRound;
            let due = may && (event is Timer || (event is Arrival && full) || (starts && full));
            &&& step.batch is Some <==> due
            &&& step.reset_timer <==> due || starts
            &&& due ==> mid.pool.batch_drawn(step.batch->0.payload@, mid.batch_size)
            &&& due ==> next.proposed && next.pool == mid.pool.drawn(keys_of(step.batch->0.payload@), mid.round)
            &&& !due ==> next.proposed == mid.proposed && next.pool == mid.pool
            &&& next.my_id == s.my_id && next.batch_size == s.batch_size
            &&& next.leader == mid.leader && next.round == mid.round
        }),
{
}

/// What a report of the consensus engine changes: the start of a round changes leader and round and lets
/// the node propose; the other reports reach the pool as they are.
pub proof fn law_reports_are_taken_in<Tx: Transaction>(s: BatcherState<Tx>, msg: BatcherConsensusMsg<usize, Tx>)
    ensures
        ({
            let e = s.taken(msg);
            &&& msg matches BatcherConsensusMsg::NewRound { leader, round } ==> e.leader == leader && e.round == round
                && !e.proposed && e.pool == s.pool
            &&& msg matches BatcherConsensusMsg::Proposed { batch, sizes, round } ==> e.pool == s.pool.admitted(
                batch.payload@,
                sizes@,
                round,
            )
            &&& msg matches BatcherConsensusMsg::Committed { batch, round } ==> e.pool == s.pool.committed_batch(
                batch.payload@,
                round,
            )
            &&& msg matches BatcherConsensusMsg::Rollback { rounds } ==> e.pool == s.pool.rolled_back(rounds@)
            &&& !(msg is NewRound) ==> e.leader == s.leader && e.round == s.round && e.proposed == s.proposed
            &&& e.my_id == s.my_id && e.batch_size == s.batch_size
        }),
{
}

} // verus!
