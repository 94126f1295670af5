//! The protocol of one node: proposals, relays, blames and certificates.
use crate::chain_state::{ChainState, ChainTip};
use crate::commit_window::{commit_len, spec_commit_len};
use crate::digest::Digest;
use crate::fnv_map::{set_contains, set_insert};
use crate::leto::leader_context::{can_rotate, starts, LeaderContext, Rotation};
use crate::leto::round_context::{ContextView, Event, RoundContext};
use crate::leto::types::ProtocolMsg;
use crate::types::{
    certifies, share, signers, Batch, Block, Certificate, Proposal, Signature,
};
use fnv::FnvHashSet;
use std::sync::Arc;
use vstd::prelude::*;

verus! {

/// The round of the genesis element.
pub const INITIAL_ROUND: u64 = 0;

/// What the caller performs.
pub enum LetoAction<Tx> {
    /// To all peers.
    Broadcast(ProtocolMsg<Tx>),
    /// To one peer.
    Send { to: usize, msg: ProtocolMsg<Tx> },
    /// To the node itself.
    Loopback(ProtocolMsg<Tx>),
}

/// Why a message is refused.
#[derive(PartialEq, Eq, Debug, Structural, Clone, Copy)]
pub enum LetoError {
    /// The leader of the round has no key.
    UnknownSigner(usize),
    /// The node that blames has no key.
    UnknownBlamer(usize),
    /// A signature or a certificate does not verify.
    BadSignature,
    /// The proposal does not account for every round since its parent's.
    InvalidChain,
}

/// What a proposal leads to.
pub enum ProposalStep<Tx> {
    /// Nothing: its round is over.
    Old,
    /// It waits for its round.
    Queued,
    /// It is correct: the relay goes out, and its element is to be hashed and stored.
    Correct { relay: Option<LetoAction<Tx>> },
}

/// What a blame leads to.
pub enum BlameStep<Tx> {
    /// Nothing yet, or nothing any more.
    Nothing,
    /// The certificate goes out and the next round begins.
    Advanced { broadcast: LetoAction<Tx>, round: NewRound },
}

/// A round that has begun.
#[derive(Clone, Copy)]
pub struct NewRound {
    pub round: u64,
    pub leader: usize,
}

/// How many certificates the check of a proposal looks at: one for each round that was skipped,
/// but no more than two more than there may be faults.
pub open spec fn certificates_needed(round: u64, parent_round: u64, num_faults: usize) -> int {
    let cap = num_faults + 2;
    if round > parent_round && round - parent_round - 1 < cap {
        round - parent_round - 1
    } else {
        cap
    }
}

/// How many certificates the check of a proposal looks at.
pub fn needed_certificates(round: u64, parent_round: u64, num_faults: usize) -> (r: usize)
    requires
        num_faults + 2 <= usize::MAX,
    ensures
        r == certificates_needed(round, parent_round, num_faults),
{
    let cap: usize = num_faults + 2;
    if round > parent_round && round - parent_round - 1 < cap as u64 {
        (round - parent_round - 1) as usize
    } else {
        cap
    }
}

/// Whether the certificates from place `idx` on cover the rounds from `start` up to the
/// proposal's: each of the right size and verified. `verified[i]` tells whether the `i`-th one
/// verifies for the `i`-th round after the parent's.
pub open spec fn covers(
    round: u64,
    start: int,
    idx: int,
    qc: Option<Vec<Arc<Certificate>>>,
    verified: Seq<bool>,
    qc_len: nat,
    num_faults: usize,
) -> bool
    decreases num_faults + 2 - idx,
{
    if round == start {
        true
    } else if qc is None || idx < 0 || idx >= qc->0@.len() || idx >= verified.len() {
        false
    } else if signers(qc->0@[idx].sigs@).len() != qc_len || !verified[idx] || idx > num_faults {
        false
    } else {
        covers(round, start + 1, idx + 1, qc, verified, qc_len, num_faults)
    }
}

/// Whether a proposal accounts for every round since its parent's.
pub fn is_proposal_valid(
    proposal: &Proposal,
    parent_round: u64,
    verified: &Vec<bool>,
    num_nodes: usize,
    num_faults: usize,
) -> (r: bool)
    requires
        num_nodes + num_faults < usize::MAX,
        parent_round + num_faults + 3 <= u64::MAX,
    ensures
        r == covers(
            proposal.round,
            parent_round + 1,
            0,
            proposal.qc,
            verified@,
            spec_commit_len(num_nodes, num_faults),
            num_faults,
        ),
{
    let qc_len: usize = commit_len(num_nodes, num_faults);
    let mut start: u64 = parent_round + 1;
    let mut idx: usize = 0;
    while proposal.round != start
        invariant
            qc_len == spec_commit_len(num_nodes, num_faults),
            num_nodes + num_faults < usize::MAX,
            parent_round + num_faults + 3 <= u64::MAX,
            start == parent_round + 1 + idx,
            idx <= num_faults + 1,
            proposal.round > parent_round ==> proposal.round >= start,
            covers(
                proposal.round,
                start as int,
                idx as int,
                proposal.qc,
                verified@,
                qc_len as nat,
                num_faults,
            ) == covers(
                proposal.round,
                parent_round + 1,
                0,
                proposal.qc,
                verified@,
                qc_len as nat,
                num_faults,
            ),
        decreases num_faults + 2 - idx,
    {
        match &proposal.qc {
            None => {
                return false;
            },
            Some(v) => {
                if idx >= v.len() || idx >= verified.len() {
                    return false;
                }
                if v[idx].unique_len() != qc_len || !verified[idx] || idx > num_faults {
                    return false;
                }
            },
        }
        start += 1;
        idx += 1;
    }
    true
}

/// What there is to know of a node.
#[verifier::ext_equal]
pub struct LetoState<Tx> {
    pub my_id: usize,
    pub num_nodes: usize,
    pub num_faults: usize,
    pub known: Set<usize>,
    pub ctx: ContextView<Tx>,
    pub rotation: Rotation,
    pub tip: ChainTip,
}

impl<Tx> LetoState<Tx> {
    pub open spec fn inv(self) -> bool {
        &&& self.ctx.inv()
        &&& self.rotation.inv()
        &&& self.num_nodes + self.num_faults < usize::MAX
    }

    /// There is a round after this one.
    pub open spec fn can_advance(self) -> bool {
        self.ctx.round < u64::MAX && self.rotation.round < u64::MAX
    }

    /// The size of a blame certificate.
    pub open spec fn qc_len(self) -> nat {
        spec_commit_len(self.num_nodes, self.num_faults)
    }

    /// The next round, after whose leader `drawn` leads.
    pub open spec fn advanced(self, drawn: usize) -> Self {
        LetoState { rotation: self.rotation.turned(drawn), ctx: self.ctx.advanced(), ..self }
    }

    /// The relay of a proposal to the next leader, unless that is this node.
    pub open spec fn relay(self, proposal: Arc<Proposal>, auth: Arc<Signature>, batch_hash: Digest) -> Option<
        LetoAction<Tx>,
    > {
        if self.rotation.next == self.my_id {
            None
        } else {
            Some(
                LetoAction::Send {
                    to: self.rotation.next,
                    msg: ProtocolMsg::Relay { proposal, auth, batch_hash, sender: self.my_id },
                },
            )
        }
    }

    /// The certificates of the rounds that a proposal of the current round skips, the earliest first.
    pub open spec fn skipped(self) -> Seq<Arc<Certificate>> {
        let n = self.ctx.round - 1 - self.tip.highest_round;
        Seq::new(
            if n > 0 {
                n as nat
            } else {
                0
            },
            |i: int| self.tip.qcs[(self.tip.highest_round + 1 + i) as u64],
        )
    }

    /// There is a certificate for each of those rounds.
    pub open spec fn can_propose(self) -> bool {
        &&& self.ctx.round >= 1
        &&& forall|r: u64| self.tip.highest_round < r < self.ctx.round ==> #[trigger] self.tip.qcs.contains_key(r)
    }

    /// A certificate ends the round: it goes out and is kept, and the next round begins.
    pub open spec fn ended(self, round: u64, qc: Arc<Certificate>, end: Self, step: BlameStep<Tx>) -> bool {
        let s = LetoState {
            ctx: ContextView { got_qc: true, ..self.ctx },
            tip: ChainTip { qcs: self.tip.qcs.insert(round, qc), ..self.tip },
            ..self
        };
        &&& self.rotation.eligible_next().contains(end.rotation.next)
        &&& end == s.advanced(end.rotation.next)
        &&& step == (BlameStep::Advanced {
            broadcast: LetoAction::Broadcast(ProtocolMsg::<Tx>::BlameQC { round, qc }),
            round: NewRound { round: end.ctx.round, leader: end.rotation.current },
        })
    }
}

/// The protocol of one node.
#[verifier::reject_recursive_types(Tx)]
pub struct Leto<Tx> {
    my_id: usize,
    num_nodes: usize,
    num_faults: usize,
    known: FnvHashSet<usize>,
    round_context: RoundContext<Tx>,
    leader_context: LeaderContext,
    chain_state: ChainState,
}

impl<Tx> Leto<Tx> {
    pub closed spec fn view(&self) -> LetoState<Tx> {
        LetoState {
            my_id: self.my_id,
            num_nodes: self.num_nodes,
            num_faults: self.num_faults,
            known: self.known@,
            ctx: self.round_context@,
            rotation: self.leader_context@,
            tip: self.chain_state@,
        }
    }

    pub open spec fn wf(&self) -> bool {
        self@.inv()
    }

    /// A node at round 1 whose chain is the genesis element. `known` lists the nodes that have a
    /// key.
    pub fn new(
        my_id: usize,
        all_ids: Vec<usize>,
        known: &Vec<usize>,
        num_faults: usize,
        genesis_hash: Digest,
        seed: [u8; 32],
    ) -> (r: Self)
        requires
            can_rotate(all_ids@, num_faults),
            2 * all_ids@.len() <= u64::MAX,
        ensures
            r.wf(),
            r@.my_id == my_id,
            r@.num_nodes == all_ids@.len(),
            r@.num_faults == num_faults,
            r@.known == known@.to_set(),
            r@.ctx == ContextView::<Tx>::fresh(all_ids@.len() as usize),
            starts(all_ids@, num_faults, r@.rotation),
            r@.tip == (ChainTip {
                highest_hash: genesis_hash,
                highest_round: INITIAL_ROUND,
                qcs: Map::<u64, Arc<Certificate>>::empty(),
            }),
    {
        let num_nodes: usize = all_ids.len();
        let mut keys: FnvHashSet<usize> = FnvHashSet::default();
        let mut i: usize = 0;
        assert(known@.take(0).to_set() =~= Set::empty());
        while i < known.len()
            invariant
                i <= known@.len(),
                keys@ == known@.take(i as int).to_set(),
            decreases known@.len() - i,
        {
            let ghost prior = known@.take(i as int);
            let ghost next = known@.take(i as int + 1);
            proof {
                assert(next =~= prior.push(known@[i as int]));
                assert(next.to_set() =~= prior.to_set().insert(known@[i as int])) by {
                    assert(next[i as int] == known@[i as int]);
                    assert forall|a: usize| prior.contains(a) implies #[trigger] next.contains(a) by {
                        let j = choose|j: int| 0 <= j < prior.len() && prior[j] == a;
                        assert(next[j] == a);
                    }
                }
            }
            set_insert(&mut keys, known[i]);
            i += 1;
        }
        assert(known@.take(i as int) =~= known@);
        Leto {
            my_id,
            num_nodes,
            num_faults,
            known: keys,
            round_context: RoundContext::new(num_nodes),
            leader_context: LeaderContext::new(all_ids, num_faults, seed),
            chain_state: ChainState::new(genesis_hash),
        }
    }

    /// The current round.
    pub fn round(&self) -> (r: u64)
        ensures
            r == self@.ctx.round,
    {
        self.round_context.round()
    }

    /// The leader of the current round.
    pub fn leader(&self) -> (r: usize)
        ensures
            r == self@.rotation.current,
    {
        self.leader_context.leader()
    }

    /// The highest element that has been agreed on, by its digest and round: what a round ends with.
    pub fn highest(&self) -> (r: (Digest, u64))
        ensures
            r == (self@.tip.highest_hash, self@.tip.highest_round),
    {
        (self.chain_state.highest_hash(), self.chain_state.highest_round())
    }

    /// Files a message that belongs to a round.
    pub fn sync(&mut self, msg: ProtocolMsg<Tx>)
        requires
            old(self).wf(),
            msg.spec_round() is Some,
        ensures
            final(self).wf(),
            final(self)@ == (LetoState { ctx: old(self)@.ctx.synced(msg), ..old(self)@ }),
    {
        self.round_context.sync(msg);
    }

    /// What happens next in the current round.
    pub fn next_event(&mut self, timer_fired: bool) -> (r: Option<Event<Tx>>)
        requires
            old(self).wf(),
        ensures
            final(self).wf(),
            if old(self)@.ctx.ready.len() > 0 {
                r == Some(Event::Msg(old(self)@.ctx.ready[0])) && final(self)@ == (LetoState {
                    ctx: ContextView { ready: old(self)@.ctx.ready.drop_first(), ..old(self)@.ctx },
                    ..old(self)@
                })
            } else {
                final(self)@ == old(self)@ && r == (if old(self)@.ctx.timer_enabled && timer_fired {
                    Some(Event::<Tx>::Timeout)
                } else {
                    None
                })
            },
    {
        self.round_context.next_event(timer_fired)
    }

    /// Messages of this round are under way.
    pub fn add_handlers(&mut self, tickets: Vec<u64>)
        requires
            old(self).wf(),
        ensures
            final(self).wf(),
            final(self)@ == (LetoState {
                ctx: ContextView {
                    handlers: old(self)@.ctx.handlers.insert(
                        old(self)@.ctx.round,
                        crate::leto::round_context::at_round(old(self)@.ctx.handlers, old(self)@.ctx.round).add(
                            tickets@,
                        ),
                    ),
                    ..old(self)@.ctx
                },
                ..old(self)@
            }),
    {
        self.round_context.add_handlers(tickets);
    }

    /// The node whose key a proposal of the current round has to verify with: the leader, unless
    /// that is this node.
    pub fn proposal_signer(&self) -> (r: Option<usize>)
        ensures
            r == (if self@.rotation.current == self@.my_id {
                None
            } else {
                Some(self@.rotation.current)
            }),
    {
        let leader: usize = self.leader_context.leader();
        if leader == self.my_id {
            None
        } else {
            Some(leader)
        }
    }

    /// A proposal whose parent is known. `batch_hash` is the digest of its batch; `chain_ok` tells
    /// whether it accounts for every round since its parent's, as `is_proposal_valid` finds it;
    /// `leader_ok` whether its signature verifies with the leader's key.
    pub fn handle_proposal(
        &mut self,
        proposal: &Arc<Proposal>,
        auth: &Arc<Signature>,
        batch: &Arc<Batch<Tx>>,
        sender: usize,
        batch_hash: Digest,
        chain_ok: bool,
        leader_ok: bool,
    ) -> (r: Result<ProposalStep<Tx>, LetoError>)
        requires
            old(self).wf(),
        ensures
            final(self).wf(),
            ({
                let s = old(self)@;
                let msg = ProtocolMsg::Propose { proposal: *proposal, auth: *auth, batch: *batch, sender };
                let leader = s.rotation.current;
                if proposal.round < s.ctx.round {
                    final(self)@ == s && r == Ok::<ProposalStep<Tx>, LetoError>(ProposalStep::Old)
                } else if proposal.round > s.ctx.round {
                    final(self)@ == (LetoState { ctx: s.ctx.synced(msg), ..s }) && r == Ok::<
                        ProposalStep<Tx>,
                        LetoError,
                    >(ProposalStep::Queued)
                } else if !chain_ok {
                    final(self)@ == s && r == Err::<ProposalStep<Tx>, LetoError>(LetoError::InvalidChain)
                } else if leader != s.my_id && !s.known.contains(leader) {
                    final(self)@ == s && r == Err::<ProposalStep<Tx>, LetoError>(LetoError::UnknownSigner(leader))
                } else if leader != s.my_id && !leader_ok {
                    final(self)@ == s && r == Err::<ProposalStep<Tx>, LetoError>(LetoError::BadSignature)
                } else {
                    final(self)@ == s && r == Ok::<ProposalStep<Tx>, LetoError>(
                        ProposalStep::Correct { relay: s.relay(*proposal, *auth, batch_hash) },
                    )
                }
            }),
    {
        let round: u64 = self.round_context.round();
        if proposal.round < round {
            return Ok(ProposalStep::Old);
        }
        if proposal.round > round {
            self.round_context.sync(
                ProtocolMsg::Propose {
                    proposal: share(proposal),
                    auth: share(auth),
                    batch: share(batch),
                    sender,
                },
            );
            return Ok(ProposalStep::Queued);
        }
        if !chain_ok {
            return Err(LetoError::InvalidChain);
        }
        let leader: usize = self.leader_context.leader();
        if leader != self.my_id {
            if !set_contains(&self.known, &leader) {
                return Err(LetoError::UnknownSigner(leader));
            }
            if !leader_ok {
                return Err(LetoError::BadSignature);
            }
        }
        Ok(ProposalStep::Correct { relay: self.relay_proposal(proposal, auth, batch_hash) })
    }

    /// The relay of a proposal to the next leader, unless that is this node.
    pub fn relay_proposal(&self, proposal: &Arc<Proposal>, auth: &Arc<Signature>, batch_hash: Digest) -> (r: Option<
        LetoAction<Tx>,
    >)
        ensures
            r == self@.relay(*proposal, *auth, batch_hash),
    {
        let next: usize = self.leader_context.next_leader();
        if next == self.my_id {
            return None;
        }
        Some(
            LetoAction::Send {
                to: next,
                msg: ProtocolMsg::Relay {
                    proposal: share(proposal),
                    auth: share(auth),
                    batch_hash,
                    sender: self.my_id,
                },
            },
        )
    }

    /// The element of a correct proposal has been stored: it is the highest one, and the round is
    /// over.
    pub fn on_correct_proposal(&mut self, hash: Digest, round: u64) -> (r: NewRound)
        requires
            old(self).wf(),
            old(self)@.can_advance(),
        ensures
            final(self).wf(),
            old(self)@.rotation.eligible_next().contains(final(self)@.rotation.next),
            final(self)@ == (LetoState {
                tip: ChainTip { highest_hash: hash, highest_round: round, ..old(self)@.tip },
                ..old(self)@
            }).advanced(final(self)@.rotation.next),
            r == (NewRound { round: final(self)@.ctx.round, leader: final(self)@.rotation.current }),
    {
        self.chain_state.update_highest_chain(hash, round);
        self.advance_round()
    }

    /// Whether there is a certificate for each round that a proposal of the current round skips.
    pub fn can_propose(&self) -> (r: bool)
        ensures
            r == self@.can_propose(),
    {
        let round: u64 = self.round_context.round();
        if round == 0 {
            return false;
        }
        let end: u64 = self.chain_state.highest_round();
        let mut at: u64 = round - 1;
        while at > end
            invariant
                round == self@.ctx.round,
                round >= 1,
                end == self@.tip.highest_round,
                at < round,
                forall|r: u64| at < r < round && r > end ==> #[trigger] self@.tip.qcs.contains_key(r),
            decreases at,
        {
            if self.chain_state.get_qc(at).is_none() {
                assert(!self@.tip.qcs.contains_key(at));
                return false;
            }
            at -= 1;
        }
        true
    }

    /// The proposal of the current round's leader for a batch: on top of the highest element, with
    /// a certificate for each round since, the earliest first.
    pub fn handle_new_batch(&self, batch_hash: Digest) -> (r: Proposal)
        requires
            self.wf(),
            self@.can_propose(),
        ensures
            r.block == (Block { batch_hash, parent_hash: self@.tip.highest_hash }),
            r.round == self@.ctx.round,
            match r.qc {
                None => self@.skipped().len() == 0,
                Some(v) => self@.skipped().len() > 0 && v@ == self@.skipped(),
            },
    {
        let round: u64 = self.round_context.round();
        let mut at: u64 = self.chain_state.highest_round();
        let mut qcs: Vec<Arc<Certificate>> = Vec::new();
        let ghost all = self@.skipped();
        assert(qcs@ =~= all.take(0));
        while at < round - 1
            invariant
                self@.can_propose(),
                round == self@.ctx.round,
                round >= 1,
                all == self@.skipped(),
                at == self@.tip.highest_round + qcs@.len(),
                qcs@.len() <= all.len(),
                qcs@ == all.take(qcs@.len() as int),
            decreases round - at,
        {
            at += 1;
            assert(self@.tip.qcs.contains_key(at));
            if let Some(qc) = self.chain_state.get_qc(at) {
                qcs.push(qc);
            }
            assert(qcs@ =~= all.take(qcs@.len() as int));
        }
        assert(qcs@.len() == all.len());
        assert(all.take(all.len() as int) =~= all);
        let qc = if qcs.len() == 0 {
            None
        } else {
            Some(qcs)
        };
        Proposal::new(Block { batch_hash, parent_hash: self.chain_state.highest_hash() }, round, qc)
    }

    /// Moves on to the next round.
    pub fn advance_round(&mut self) -> (r: NewRound)
        requires
            old(self).wf(),
            old(self)@.can_advance(),
        ensures
            final(self).wf(),
            old(self)@.rotation.eligible_next().contains(final(self)@.rotation.next),
            final(self)@ == old(self)@.advanced(final(self)@.rotation.next),
            r == (NewRound { round: final(self)@.ctx.round, leader: final(self)@.rotation.current }),
    {
        self.leader_context.advance_round();
        self.round_context.advance_round();
        NewRound { round: self.round_context.round(), leader: self.leader_context.leader() }
    }

    /// The round took too long: its timer stops, and this node blames it. Returns the round to sign.
    pub fn on_round_timeout(&mut self) -> (r: u64)
        requires
            old(self).wf(),
        ensures
            final(self).wf(),
            r == old(self)@.ctx.round,
            final(self)@ == (LetoState {
                ctx: ContextView { timer_enabled: false, ..old(self)@.ctx },
                ..old(self)@
            }),
    {
        self.round_context.disable_timer();
        self.round_context.round()
    }

    /// The signed blame of a round, to everybody and to this node itself.
    pub fn blame(&self, round: u64, auth: &Arc<Signature>) -> (r: Vec<LetoAction<Tx>>)
        ensures
            r@ == seq![
                LetoAction::Broadcast(ProtocolMsg::<Tx>::Blame { round, auth: *auth }),
                LetoAction::Loopback(ProtocolMsg::<Tx>::Blame { round, auth: *auth }),
            ],
    {
        let mut out: Vec<LetoAction<Tx>> = Vec::new();
        out.push(LetoAction::Broadcast(ProtocolMsg::Blame { round, auth: share(auth) }));
        out.push(LetoAction::Loopback(ProtocolMsg::Blame { round, auth: share(auth) }));
        assert(out@ =~= seq![
            LetoAction::Broadcast(ProtocolMsg::<Tx>::Blame { round, auth: *auth }),
            LetoAction::Loopback(ProtocolMsg::<Tx>::Blame { round, auth: *auth }),
        ]);
        out
    }

    /// A blame of the current round. A proposal of the round counts for more than a blame.
    /// `verified` tells whether its signature verifies with the key of the node that made it.
    pub fn handle_blame(&mut self, blame_round: u64, auth: &Arc<Signature>, verified: bool) -> (r: Result<
        BlameStep<Tx>,
        LetoError,
    >)
        requires
            old(self).wf(),
            old(self)@.can_advance(),
        ensures
            final(self).wf(),
            ({
                let s = old(self)@;
                let noted = LetoState {
                    ctx: ContextView { blame_map: s.ctx.blame_map.insert(auth.signer, *auth), ..s.ctx },
                    ..s
                };
                if s.tip.highest_round == blame_round || s.ctx.got_qc {
                    final(self)@ == s && r == Ok::<BlameStep<Tx>, LetoError>(BlameStep::Nothing)
                } else if !s.known.contains(auth.signer) {
                    final(self)@ == s && r == Err::<BlameStep<Tx>, LetoError>(LetoError::UnknownBlamer(auth.signer))
                } else if !verified {
                    final(self)@ == s && r == Err::<BlameStep<Tx>, LetoError>(LetoError::BadSignature)
                } else if noted.ctx.blame_map.dom().len() != s.qc_len() {
                    final(self)@ == noted && r == Ok::<BlameStep<Tx>, LetoError>(BlameStep::Nothing)
                } else {
                    r matches Ok(step) && exists|qc: Arc<Certificate>| #[trigger]
                        certifies(qc.sigs@, noted.ctx.blame_map) && (LetoState {
                            ctx: ContextView { blame_map: Map::empty(), ..noted.ctx },
                            ..noted
                        }).ended(blame_round, qc, final(self)@, step)
                }
            }),
    {
        if self.chain_state.highest_round() == blame_round {
            return Ok(BlameStep::Nothing);
        }
        let qc_len: usize = commit_len(self.num_nodes, self.num_faults);
        if self.round_context.got_qc() {
            return Ok(BlameStep::Nothing);
        }
        let origin: usize = auth.signer;
        if !set_contains(&self.known, &origin) {
            return Err(LetoError::UnknownBlamer(origin));
        }
        if !verified {
            return Err(LetoError::BadSignature);
        }
        self.round_context.add_blame(share(auth));
        let ghost noted = self@;
        if self.round_context.blame_count() != qc_len {
            return Ok(BlameStep::Nothing);
        }
        let qc = Arc::new(self.round_context.take_certificate());
        let ghost mid = self@;
        let step = self.handle_blame_qc(blame_round, share(&qc));
        proof {
            let s = LetoState { ctx: ContextView { blame_map: Map::empty(), ..noted.ctx }, ..noted };
            assert(certifies(qc.sigs@, noted.ctx.blame_map));
            assert(mid =~= LetoState { ctx: ContextView { got_qc: true, ..s.ctx }, ..s });
            assert(s.ended(blame_round, qc, self@, step));
        }
        Ok(step)
    }

    /// A certificate for a round came. `verified` tells whether it verifies. Only the first one of
    /// a round counts, and none of a round that is over.
    pub fn on_blame_qc(&mut self, blame_round: u64, qc: &Arc<Certificate>, verified: bool) -> (r: Result<
        BlameStep<Tx>,
        LetoError,
    >)
        requires
            old(self).wf(),
            old(self)@.can_advance(),
        ensures
            final(self).wf(),
            if old(self)@.ctx.got_qc || blame_round < old(self)@.ctx.round {
                final(self)@ == old(self)@ && r == Ok::<BlameStep<Tx>, LetoError>(BlameStep::Nothing)
            } else if !verified {
                final(self)@ == old(self)@ && r == Err::<BlameStep<Tx>, LetoError>(LetoError::BadSignature)
            } else {
                r matches Ok(step) && old(self)@.ended(blame_round, *qc, final(self)@, step)
            },
    {
        if self.round_context.got_qc() || blame_round < self.round_context.round() {
            return Ok(BlameStep::Nothing);
        }
        if !verified {
            return Err(LetoError::BadSignature);
        }
        Ok(self.handle_blame_qc(blame_round, share(qc)))
    }

    /// A correct certificate goes out and is kept, and the next round begins.
    pub fn handle_blame_qc(&mut self, blame_round: u64, qc: Arc<Certificate>) -> (r: BlameStep<Tx>)
        requires
            old(self).wf(),
            old(self)@.can_advance(),
        ensures
            final(self).wf(),
            old(self)@.ended(blame_round, qc, final(self)@, r),
    {
        self.round_context.set_got_qc();
        let broadcast = LetoAction::Broadcast(ProtocolMsg::BlameQC { round: blame_round, qc: share(&qc) });
        self.chain_state.add_qc(blame_round, qc);
        let round = self.advance_round();
        BlameStep::Advanced { broadcast, round }
    }
}

/// A proposal that directly extends its parent needs no certificate.
pub proof fn law_direct_child_needs_no_certificate(
    proposal: Proposal,
    parent_round: u64,
    verified: Seq<bool>,
    qc_len: nat,
    num_faults: usize,
)
    requires
        proposal.round == parent_round + 1,
    ensures
        covers(proposal.round, parent_round + 1, 0, proposal.qc, verified, qc_len, num_faults),
        certificates_needed(proposal.round, parent_round, num_faults) == 0,
{
}

/// A proposal that skips rounds without certificates is not valid.
pub proof fn law_skipping_needs_certificates(
    proposal: Proposal,
    parent_round: u64,
    verified: Seq<bool>,
    qc_len: nat,
    num_faults: usize,
)
    requires
        proposal.round != parent_round + 1,
        proposal.qc is None,
    ensures
        !covers(proposal.round, parent_round + 1, 0, proposal.qc, verified, qc_len, num_faults),
{
}

/// Whether the certificate is signed by so many nodes and no more.
pub open spec fn is_signed_by(certificate: Arc<Certificate>, qc_len: nat) -> bool {
    signers(certificate.sigs@).len() == qc_len
}

proof fn lemma_covers_rest(
    round: u64,
    parent_round: u64,
    idx: int,
    qc: Option<Vec<Arc<Certificate>>>,
    verified: Seq<bool>,
    qc_len: nat,
    num_faults: usize,
)
    requires
        round - parent_round - 1 <= num_faults + 1,
        0 <= idx <= round - parent_round - 1,
        round > parent_round + 1 ==> qc is Some && qc->0@.len() == round - parent_round - 1,
        verified.len() == round - parent_round - 1,
        forall|i: int| 0 <= i < verified.len() ==> #[trigger] verified[i],
        forall|i: int| 0 <= i < verified.len() ==> #[trigger] is_signed_by(qc->0@[i], qc_len),
    ensures
        covers(round, parent_round + 1 + idx, idx, qc, verified, qc_len, num_faults),
    decreases round - parent_round - idx,
{
    if parent_round + 1 + idx < round {
        assert(is_signed_by(qc->0@[idx], qc_len));
        lemma_covers_rest(round, parent_round, idx + 1, qc, verified, qc_len, num_faults);
    }
}

/// A proposal that this node makes as a leader is valid for everybody that finds its certificates to
/// verify, each for its round, where it skips no more rounds than a proposal may: one more than there
/// may be faults.
pub proof fn law_own_proposal_is_valid<Tx>(s: LetoState<Tx>, proposal: Proposal, verified: Seq<bool>)
    requires
        s.can_propose(),
        proposal.round == s.ctx.round,
        match proposal.qc {
            None => s.skipped().len() == 0,
            Some(v) => s.skipped().len() > 0 && v@ == s.skipped(),
        },
        s.tip.highest_round < s.ctx.round,
        s.skipped().len() <= s.num_faults + 1,
        verified.len() == s.skipped().len(),
        forall|i: int| 0 <= i < verified.len() ==> #[trigger] verified[i],
        forall|i: int| 0 <= i < verified.len() ==> #[trigger] is_signed_by(s.skipped()[i], s.qc_len()),
    ensures
        covers(
            proposal.round,
            s.tip.highest_round + 1,
            0,
            proposal.qc,
            verified,
            s.qc_len(),
            s.num_faults,
        ),
        certificates_needed(proposal.round, s.tip.highest_round, s.num_faults) == s.skipped().len(),
{
    assert forall|i: int| 0 <= i < verified.len() implies #[trigger] is_signed_by(
        proposal.qc->0@[i],
        s.qc_len(),
    ) by {
        assert(is_signed_by(s.skipped()[i], s.qc_len()));
        assert(proposal.qc->0@[i] == s.skipped()[i]);
    }
    lemma_covers_rest(
        proposal.round,
        s.tip.highest_round,
        0,
        proposal.qc,
        verified,
        s.qc_len(),
        s.num_faults,
    );
}

/// A round ends at most once by blame: after its certificate nothing that blames it has an effect
/// until the next round has begun, and that one starts without.
pub proof fn law_round_ends_once<Tx>(
    s: LetoState<Tx>,
    round: u64,
    qc: Arc<Certificate>,
    end: LetoState<Tx>,
    step: BlameStep<Tx>,
)
    requires
        s.can_advance(),
        s.ended(round, qc, end, step),
    ensures
        end.ctx.round == s.ctx.round + 1,
        !end.ctx.got_qc,
        end.tip.qcs.contains_key(round),
        end.tip.qcs[round] == qc,
        end.tip.highest_hash == s.tip.highest_hash,
{
}

} // verus!
