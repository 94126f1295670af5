//! The commit rule of the proposal chain.
use crate::chain_commit::{ChainCommit, CommitState};
use crate::commit_window::{spec_commit_len, CommitRun, Walk, WalkState, WalkStep, WindowState};
use crate::digest::Digest;
use crate::linked_map::Link;
use vstd::prelude::*;

verus! {

/// The undecided elements of the proposal chain, and the highest one that has committed.
pub struct CommitContext {
    chain: ChainCommit,
}

impl CommitContext {
    pub closed spec fn view(&self) -> CommitState {
        self.chain@
    }

    pub open spec fn wf(&self) -> bool {
        self@.window.counted()
    }

    /// A context in which only the genesis element is known. It has committed.
    pub fn new(genesis_hash: Digest, genesis: Link, num_nodes: usize, num_faults: usize) -> (r: Self)
        requires
            num_nodes + num_faults < usize::MAX,
        ensures
            r.wf(),
            r@ == (CommitState {
                commit_len: spec_commit_len(num_nodes, num_faults),
                highest_round: genesis.round,
                highest_hash: genesis_hash,
                window: WindowState::empty(),
            }),
    {
        CommitContext { chain: ChainCommit::new(genesis_hash, genesis, num_nodes, num_faults) }
    }

    /// A round has ended with this element as the highest one.
    pub fn begin(&self, hash: Digest, element: Link) -> (r: Walk)
        ensures
            r@ == WalkState::start(hash, element),
    {
        Walk::new(hash, element)
    }

    /// Takes one step of the walk.
    pub fn step(&self, walk: &mut Walk) -> (r: WalkStep)
        requires
            old(walk)@.can_step(),
        ensures
            (final(walk)@, r) == self@.stepped(old(walk)@),
    {
        self.chain.step(walk)
    }

    /// Hands the walk the element it asked for, if storage has it; without it the walk is over.
    pub fn supply(&self, walk: &mut Walk, found: Option<Link>) -> (r: WalkStep)
        ensures
            final(walk)@ == (WalkState { head: found, ..old(walk)@ }),
            r == (if found is Some {
                WalkStep::Continue
            } else {
                WalkStep::Done
            }),
    {
        walk.supply(found)
    }

    /// Whether the elements passed on the way can be counted.
    pub fn can_finish(&self, walk: &Walk) -> (r: bool)
        ensures
            r == self@.can_finish(walk@),
    {
        self.chain.can_finish(walk)
    }

    /// Ends the walk and lets elements commit, the oldest first, for as long as a quorum of proposers
    /// is in the window.
    pub fn finish(&mut self, walk: Walk) -> (r: CommitRun)
        requires
            old(self).wf(),
            old(self)@.can_finish(walk@),
        ensures
            final(self).wf(),
            final(self)@ == old(self)@.finished(walk@),
            ({
                let d = old(self)@.merged(walk@).drained(old(self)@.commit_len);
                r.committed@ == d.committed && r.exhausted == d.stuck
            }),
    {
        self.chain.finish(walk)
    }
}

} // verus!
