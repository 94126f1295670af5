//! The signature plane of a node: it agrees on one attestation per round, blames silent leaders
//! and catches up when it has fallen behind.
use crate::chain_state::{ChainState, ChainTip};
use crate::commit_window::{commit_len, spec_commit_len};
use crate::digest::Digest;
use crate::fnv_map::{
    map_contains, map_get, map_insert, map_remove, set_contains, set_insert, set_remove,
};
use crate::hera::attestation::{
    attestation_envelope, fresh_heads, silent_authors, HeraCommittedAttestation, SigAttestationValidity,
};
use crate::hera::cancel::{pushed, within_cap, CancelHandlers, MAX_CANCEL_HANDLERS_PER_PEER};
use crate::hera::data_actor::CommitEmit;
use crate::hera::data_chain::DataHeadSnapshot;
use crate::hera::round_state::{HeraRoundState, RoundView};
use crate::hera::types::{
    DataHead, HeraMsg, MultiAttestation, MultiAttestationEnvelope, SigElement, SigProposal,
};
use crate::leto::leader_context::{can_rotate, starts, LeaderContext, Rotation};
use crate::sorting::sorted;
use crate::types::{certifies, share, Block, Certificate, Proposal, Signature};
use fnv::{FnvHashMap, FnvHashSet};
use std::sync::Arc;
use vstd::prelude::*;

verus! {

/// No node jumps over more rounds than this at once.
pub const MAX_SIG_CATCHUP: u64 = 4096;

/// The epoch of the attestations.
pub const STEADY_STATE_SIG_EPOCH: u64 = 1;

/// What the caller performs.
pub enum SigAction<Tx> {
    /// To all peers.
    Broadcast(HeraMsg<Tx>),
    /// To one peer.
    Send { to: usize, msg: HeraMsg<Tx> },
    /// To the node itself, behind what it has received.
    Loopback(HeraMsg<Tx>),
    /// To the data plane: this block is needed, and that node has it.
    FetchHint { hash: Digest, holder: usize },
}

/// Why a message is refused.
#[derive(PartialEq, Eq, Debug, Structural, Clone, Copy)]
pub enum SigError {
    /// The leader of the round has no key.
    UnknownLeader(usize),
    /// The node that blames has no key.
    UnknownBlamer(usize),
    /// A signature or a certificate does not verify.
    BadSignature,
}

/// What storage says of an element.
#[derive(PartialEq, Eq, Debug, Structural, Clone, Copy)]
pub enum ParentLookup {
    Present,
    Missing,
    /// It could not be read.
    Failed,
}

/// What a proposal leads to.
pub struct ProposalStep<Tx> {
    pub actions: Vec<SigAction<Tx>>,
    /// The proposal is agreed on: its element is to be hashed and stored.
    pub agreed: bool,
}

/// What a blame leads to.
pub struct BlameStep<Tx> {
    pub actions: Vec<SigAction<Tx>>,
    /// The round is over.
    pub advanced: bool,
    /// The round that this node has to propose for now.
    pub propose: Option<u64>,
}

/// Where a received message goes.
pub enum Routed {
    /// It waits for its round.
    Queued,
    /// A request for an element.
    ElementRequest { source: usize, target_hash: Digest },
    /// An element.
    ElementResponse(Arc<SigElement>),
    /// A request for the elements of some rounds.
    RangeRequest { source: usize, from_round: u64, to_round: u64 },
    /// The elements of some rounds.
    RangeResponse(Vec<Arc<SigElement>>),
    /// It has no place here.
    Ignored,
}

/// The handler of a message whose round has come.
pub enum Ordered {
    /// A proposal.
    Proposal(Arc<SigProposal>),
    /// A blame.
    Blame { round: u64, auth: Arc<Signature>, highest_round: u64, highest_hash: Digest },
    /// A certificate.
    BlameQC { round: u64, qc: Arc<Certificate>, highest_round: u64, highest_hash: Digest },
    /// It has no place here.
    Unexpected,
}

/// Finds the handler of a message whose round has come.
pub fn handle_sig_ordered<Tx>(msg: HeraMsg<Tx>) -> (r: Ordered)
    ensures
        r == (match msg {
            HeraMsg::SigPropose(p) => Ordered::Proposal(p),
            HeraMsg::SigBlame { round, auth, highest_round, highest_hash } => Ordered::Blame {
                round,
                auth,
                highest_round,
                highest_hash,
            },
            HeraMsg::SigBlameQC { round, qc, highest_round, highest_hash } => Ordered::BlameQC {
                round,
                qc,
                highest_round,
                highest_hash,
            },
            _ => Ordered::Unexpected,
        }),
{
    match msg {
        HeraMsg::SigPropose(p) => Ordered::Proposal(p),
        HeraMsg::SigBlame { round, auth, highest_round, highest_hash } => Ordered::Blame {
            round,
            auth,
            highest_round,
            highest_hash,
        },
        HeraMsg::SigBlameQC { round, qc, highest_round, highest_hash } => Ordered::BlameQC {
            round,
            qc,
            highest_round,
            highest_hash,
        },
        _ => Ordered::Unexpected,
    }
}

/// What there is to know of the signature plane.
#[verifier::ext_equal]
pub struct SigState<Tx> {
    pub my_id: usize,
    pub ids: Seq<usize>,
    pub known: Set<usize>,
    pub num_faults: usize,
    pub rounds: RoundView<Tx>,
    pub rotation: Rotation,
    pub tip: ChainTip,
    pub timer_enabled: bool,
    pub epoch: u64,
    pub prev_attested: Map<usize, u64>,
    pub parked: Map<Digest, Seq<Arc<SigProposal>>>,
    pub requested: Set<Digest>,
    pub propose_interval: u64,
    pub last_propose_at: Option<u64>,
    pub pending_propose_round: Option<u64>,
    /// The tickets of the messages under way to each peer, oldest first.
    pub under_way: Map<usize, Seq<u64>>,
}

/// The blocks that an attestation refers to, to be fetched from its sender. A head at height 0 of
/// epoch 0 needs no fetch.
pub open spec fn hints<Tx>(heads: Seq<DataHead>, holder: usize) -> Seq<SigAction<Tx>>
    decreases heads.len(),
{
    if heads.len() == 0 {
        Seq::empty()
    } else {
        let h = heads.last();
        let rest = hints(heads.drop_last(), holder);
        if h.height > 0 || h.epoch > 0 {
            rest.push(SigAction::FetchHint { hash: h.hash, holder })
        } else {
            rest
        }
    }
}

/// The proposals to the node itself, once more.
pub open spec fn replays<Tx>(parked: Seq<Arc<SigProposal>>) -> Seq<SigAction<Tx>> {
    Seq::new(parked.len(), |i: int| SigAction::Loopback(HeraMsg::SigPropose(parked[i])))
}

impl<Tx> SigState<Tx> {
    /// The size of a blame certificate.
    pub open spec fn qc_len(self) -> nat {
        spec_commit_len(self.ids.len() as usize, self.num_faults)
    }

    /// The messages under way to a peer.
    pub open spec fn under_way_to(self, peer: usize) -> Seq<u64> {
        if self.under_way.contains_key(peer) {
            self.under_way[peer]
        } else {
            Seq::empty()
        }
    }

    /// The rotation can go on, each blame is filed under the node that made it, and not too many
    /// messages are under way to any peer.
    pub open spec fn inv(self) -> bool {
        &&& within_cap(self.under_way)
        &&& self.rotation.inv()
        &&& self.ids.len() + self.num_faults < usize::MAX
        &&& forall|id: usize| #[trigger] self.rounds.blames.contains_key(id) ==> self.rounds.blames[id].signer == id
    }

    /// There is a round after this one.
    pub open spec fn can_advance(self) -> bool {
        self.rounds.round < u64::MAX && self.rotation.round < u64::MAX
    }

    /// Whether a proposal now would come too soon after the last one.
    pub open spec fn too_soon(self, now: u64) -> bool {
        self.propose_interval > 0 && (self.last_propose_at matches Some(last) && now < last
            + self.propose_interval)
    }

    /// The start of a round that this node leads: it proposes, unless that would be too soon.
    pub open spec fn paced(self, now: u64) -> (Self, Option<u64>) {
        let r = self.rounds.round;
        if self.too_soon(now) {
            (SigState { pending_propose_round: Some(r), ..self }, None)
        } else {
            (
                SigState { last_propose_at: Some(now), pending_propose_round: None, ..self },
                Some(r),
            )
        }
    }

    /// Whether the proposal of the current round was put off and may be made now.
    pub open spec fn may_fire(self, now: u64) -> bool {
        self.pending_propose_round == Some(self.rounds.round) && !self.too_soon(now)
    }

    /// The proposal that was put off, once its time has come.
    pub open spec fn fired(self, now: u64) -> (Self, Option<u64>) {
        if self.may_fire(now) {
            (
                SigState { last_propose_at: Some(now), pending_propose_round: None, ..self },
                Some(self.rounds.round),
            )
        } else {
            (self, None)
        }
    }

    /// The next round, after whose leader `drawn` leads.
    pub open spec fn turned(self, drawn: usize) -> Self {
        SigState {
            rotation: self.rotation.turned(drawn),
            rounds: self.rounds.advanced(),
            timer_enabled: true,
            ..self
        }
    }

    /// The next round, with the proposal for it if this node leads it.
    pub open spec fn advanced(self, drawn: usize, now: u64) -> (Self, Option<u64>) {
        let s = self.turned(drawn);
        if s.rotation.current == s.my_id {
            s.paced(now)
        } else {
            (s, None)
        }
    }

    /// The request for an element: to everybody if the holder is this node, and none at all if one
    /// is outstanding.
    pub open spec fn element_request(self, target: Digest, holder: usize) -> Seq<SigAction<Tx>> {
        let msg = HeraMsg::SigElementRequest { source: self.my_id, target_hash: target };
        if self.requested.contains(target) {
            Seq::empty()
        } else if holder == self.my_id {
            seq![SigAction::Broadcast(msg)]
        } else {
            seq![SigAction::Send { to: holder, msg }]
        }
    }

    /// The element is asked for.
    pub open spec fn asked(self, target: Digest) -> Self {
        SigState { requested: self.requested.insert(target), ..self }
    }

    /// A proposal waits for its parent.
    pub open spec fn with_parked(self, msg: Arc<SigProposal>) -> Self {
        let parent = msg.proposal.block.parent_hash;
        SigState { parked: self.parked.insert(parent, self.parked_on(parent).push(msg)), ..self }
    }

    pub open spec fn parked_on(self, parent: Digest) -> Seq<Arc<SigProposal>> {
        if self.parked.contains_key(parent) {
            self.parked[parent]
        } else {
            Seq::empty()
        }
    }

    /// The relay of a proposal to the next leader, unless that is this node.
    pub open spec fn relay(self, msg: Arc<SigProposal>) -> Seq<SigAction<Tx>> {
        if self.rotation.next == self.my_id {
            Seq::empty()
        } else {
            seq![
                SigAction::Send {
                    to: self.rotation.next,
                    msg: HeraMsg::SigRelay {
                        proposal: msg.proposal,
                        auth: msg.auth,
                        att_hash: msg.proposal.block.batch_hash,
                        sender: self.my_id,
                    },
                },
            ]
        }
    }

    /// Whether more than one element below `round` is missing here.
    pub open spec fn wide_gap(self, round: u64) -> bool {
        round > self.tip.highest_round + 1
    }

    /// The round below, 0 below round 0.
    pub open spec fn below(round: u64) -> u64 {
        if round == 0 {
            0
        } else {
            (round - 1) as u64
        }
    }

    /// The request to everybody for what is missing up to `round`, whose element is `target`.
    pub open spec fn gap_request(self, round: u64, target: Digest) -> Seq<SigAction<Tx>> {
        if self.wide_gap(round) {
            seq![
                SigAction::Broadcast(
                    HeraMsg::SigElementRangeRequest {
                        source: self.my_id,
                        from_round: (self.tip.highest_round + 1) as u64,
                        to_round: round,
                    },
                ),
            ]
        } else {
            self.element_request(target, self.my_id)
        }
    }

    /// The state after that request.
    pub open spec fn gap_asked(self, round: u64, target: Digest) -> Self {
        if self.wide_gap(round) {
            self
        } else {
            self.asked(target)
        }
    }

    /// What a proposal leads to, given what the checks of its signatures and the search for its
    /// parent say.
    pub open spec fn proposed(
        self,
        msg: Arc<SigProposal>,
        leader_ok: bool,
        att: SigAttestationValidity,
        parent: ParentLookup,
    ) -> (Self, Result<(Seq<SigAction<Tx>>, bool), SigError>) {
        let leader = self.rotation.current;
        let round = msg.proposal.round;
        let fetch = hints(msg.attestation.envelope.heads@, msg.sender);
        if round != self.rounds.round {
            (self, Ok((Seq::empty(), false)))
        } else if leader != self.my_id && !self.known.contains(leader) {
            (self, Err(SigError::UnknownLeader(leader)))
        } else if leader != self.my_id && !leader_ok {
            (self, Err(SigError::BadSignature))
        } else if att == SigAttestationValidity::Invalid {
            (self, Ok((Seq::empty(), false)))
        } else if parent == ParentLookup::Present {
            (self, Ok((fetch.add(self.relay(msg)), true)))
        } else if parent == ParentLookup::Failed {
            (self, Ok((fetch, false)))
        } else {
            let s = self.with_parked(msg);
            let target = msg.proposal.block.parent_hash;
            if self.wide_gap(Self::below(round)) {
                (
                    s,
                    Ok(
                        (
                            fetch.push(
                                SigAction::Send {
                                    to: msg.sender,
                                    msg: HeraMsg::SigElementRangeRequest {
                                        source: self.my_id,
                                        from_round: (self.tip.highest_round + 1) as u64,
                                        to_round: Self::below(round),
                                    },
                                },
                            ),
                            false,
                        ),
                    ),
                )
            } else {
                (s.asked(target), Ok((fetch.add(s.element_request(target, msg.sender)), false)))
            }
        }
    }

    /// Whether a blame is out of date: the round has its proposal or its certificate.
    pub open spec fn blame_is_moot(self, round: u64) -> bool {
        self.tip.highest_round == round || self.rounds.got_qc
    }

    /// The state once a blame has been noted.
    pub open spec fn blamed(self, auth: Arc<Signature>, highest_round: u64, highest_hash: Digest) -> Self {
        SigState { rounds: self.rounds.blamed(auth, highest_round, highest_hash), ..self }
    }

    /// What a certificate for a round leads to before the round ends: it is passed on and kept, and
    /// a higher element that is missing here is asked for.
    pub open spec fn certified(
        self,
        round: u64,
        qc: Arc<Certificate>,
        highest_round: u64,
        highest_hash: Digest,
        have_highest: bool,
    ) -> (Self, Seq<SigAction<Tx>>) {
        let s = SigState {
            rounds: RoundView { got_qc: true, ..self.rounds },
            tip: ChainTip { qcs: self.tip.qcs.insert(round, qc), ..self.tip },
            ..self
        };
        let out = seq![
            SigAction::Broadcast(HeraMsg::SigBlameQC { round, qc, highest_round, highest_hash }),
        ];
        if highest_round > self.tip.highest_round && !have_highest {
            (s.gap_asked(highest_round, highest_hash), out.add(s.gap_request(highest_round, highest_hash)))
        } else {
            (s, out)
        }
    }

    /// The highest element that the blames report, or this node's own.
    pub open spec fn reported(self) -> (u64, Digest) {
        match self.rounds.best {
            Some(b) => b,
            None => (0, self.tip.highest_hash),
        }
    }

    /// Whether this node catches up to a round at once.
    pub open spec fn within_reach(self, target: u64) -> bool {
        target > self.rounds.round && target - self.rounds.round <= MAX_SIG_CATCHUP
    }

    /// Whether an element is wanted: a proposal waits for it or it has been asked for.
    pub open spec fn wants(self, hash: Digest) -> bool {
        self.parked.contains_key(hash) || self.requested.contains(hash)
    }
}

/// The signature plane of a node.
#[verifier::reject_recursive_types(Tx)]
pub struct Hera<Tx> {
    my_id: usize,
    all_ids: Vec<usize>,
    known: FnvHashSet<usize>,
    num_faults: usize,
    round_state: HeraRoundState<Tx>,
    sig_leader_context: LeaderContext,
    sig_chain_state: ChainState,
    timer_enabled: bool,
    signature_epoch: u64,
    prev_attested_heights: FnvHashMap<usize, u64>,
    pending_sig_proposals: FnvHashMap<Digest, Vec<Arc<SigProposal>>>,
    pending_sig_element_requests: FnvHashSet<Digest>,
    propose_interval: u64,
    last_propose_at: Option<u64>,
    pending_propose_round: Option<u64>,
    cancel_handlers: CancelHandlers,
}

fn copy_ids(ids: &Vec<usize>) -> (r: Vec<usize>)
    ensures
        r@ == ids@,
{
    let mut out: Vec<usize> = Vec::new();
    let mut i: usize = 0;
    while i < ids.len()
        invariant
            i <= ids@.len(),
            out@ =~= ids@.take(i as int),
        decreases ids@.len() - i,
    {
        out.push(ids[i]);
        i += 1;
    }
    assert(ids@.take(i as int) =~= ids@);
    out
}

impl<Tx> Hera<Tx> {
    pub closed spec fn view(&self) -> SigState<Tx> {
        SigState {
            my_id: self.my_id,
            ids: self.all_ids@,
            known: self.known@,
            num_faults: self.num_faults,
            rounds: self.round_state@,
            rotation: self.sig_leader_context@,
            tip: self.sig_chain_state@,
            timer_enabled: self.timer_enabled,
            epoch: self.signature_epoch,
            prev_attested: self.prev_attested_heights@,
            parked: self.pending_sig_proposals@.map_values(|v: Vec<Arc<SigProposal>>| v@),
            requested: self.pending_sig_element_requests@,
            propose_interval: self.propose_interval,
            last_propose_at: self.last_propose_at,
            pending_propose_round: self.pending_propose_round,
            under_way: self.cancel_handlers@,
        }
    }

    pub open spec fn wf(&self) -> bool {
        self@.inv()
    }

    /// A node at round 1 whose chain is the genesis element. `known` lists the nodes that have a
    /// key; `propose_interval` is the least time between two proposals of this node.
    pub fn new(
        my_id: usize,
        all_ids: Vec<usize>,
        known: &Vec<usize>,
        num_faults: usize,
        genesis_hash: Digest,
        seed: [u8; 32],
        propose_interval: u64,
    ) -> (r: Self)
        requires
            can_rotate(all_ids@, num_faults),
        ensures
            r.wf(),
            r@.my_id == my_id,
            r@.ids == all_ids@,
            r@.known == known@.to_set(),
            r@.num_faults == num_faults,
            r@.rounds.round == 1,
            r@.rounds.ready.len() == 0,
            r@.rounds.future == Map::<u64, Seq<HeraMsg<Tx>>>::empty(),
            r@.rounds.blames == Map::<usize, Arc<Signature>>::empty(),
            r@.rounds.best is None,
            !r@.rounds.got_qc,
            starts(all_ids@, num_faults, r@.rotation),
            r@.tip == (ChainTip {
                highest_hash: genesis_hash,
                highest_round: 0,
                qcs: Map::<u64, Arc<Certificate>>::empty(),
            }),
            r@.timer_enabled,
            r@.epoch == STEADY_STATE_SIG_EPOCH,
            r@.prev_attested == Map::<usize, u64>::empty(),
            r@.parked == Map::<Digest, Seq<Arc<SigProposal>>>::empty(),
            r@.requested == Set::<Digest>::empty(),
            r@.propose_interval == propose_interval,
            r@.last_propose_at is None,
            r@.pending_propose_round is None,
            r@.under_way == Map::<usize, Seq<u64>>::empty(),
    {
        let sig_leader_context = LeaderContext::new(copy_ids(&all_ids), num_faults, seed);
        let mut keys: FnvHashSet<usize> = FnvHashSet::default();
        let mut i: usize = 0;
        assert(known@.take(0).to_set() =~= Set::empty());
        while i < known.len()
            invariant
                i <= known@.len(),
                keys@ == known@.take(i as int).to_set(),
            decreases known@.len() - i,
        {
            let ghost prior = known@.take(i as int);
            let ghost next = known@.take(i as int + 1);
            proof {
                assert(next =~= prior.push(known@[i as int]));
                assert(next.to_set() =~= prior.to_set().insert(known@[i as int])) by {
                    assert(next[i as int] == known@[i as int]);
                    assert forall|a: usize| prior.contains(a) implies #[trigger] next.contains(a) by {
                        let j = choose|j: int| 0 <= j < prior.len() && prior[j] == a;
                        assert(next[j] == a);
                    }
                }
            }
            set_insert(&mut keys, known[i]);
            i += 1;
        }
        assert(known@.take(i as int) =~= known@);
        let r = Hera {
            my_id,
            all_ids,
            known: keys,
            num_faults,
            round_state: HeraRoundState::new(),
            sig_leader_context,
            sig_chain_state: ChainState::new(genesis_hash),
            timer_enabled: true,
            signature_epoch: STEADY_STATE_SIG_EPOCH,
            prev_attested_heights: FnvHashMap::default(),
            pending_sig_proposals: FnvHashMap::default(),
            pending_sig_element_requests: FnvHashSet::default(),
            propose_interval,
            last_propose_at: None,
            pending_propose_round: None,
            cancel_handlers: CancelHandlers::new(),
        };
        assert(r@.parked =~= Map::<Digest, Seq<Arc<SigProposal>>>::empty());
        r
    }

    /// The leader of the current round.
    pub fn rleader(&self) -> (r: usize)
        ensures
            r == self@.rotation.current,
    {
        self.sig_leader_context.leader()
    }

    /// The current round.
    pub fn round(&self) -> (r: u64)
        ensures
            r == self@.rounds.round,
    {
        self.round_state.round()
    }

    /// The highest element that has been agreed on, by its digest and round: what a round ends with.
    pub fn highest(&self) -> (r: (Digest, u64))
        ensures
            r == (self@.tip.highest_hash, self@.tip.highest_round),
    {
        (self.sig_chain_state.highest_hash(), self.sig_chain_state.highest_round())
    }

    /// Whether the round timer counts.
    pub fn timer_enabled(&self) -> (r: bool)
        ensures
            r == self@.timer_enabled,
    {
        self.timer_enabled
    }

    /// Takes the next message of the current round.
    pub fn pop_msg(&mut self) -> (r: Option<HeraMsg<Tx>>)
        requires
            old(self).wf(),
        ensures
            final(self).wf(),
            match r {
                Some(m) => old(self)@.rounds.ready.len() > 0 && m == old(self)@.rounds.ready[0] && final(self)@ == (SigState {
                    rounds: RoundView { ready: old(self)@.rounds.ready.drop_first(), ..old(self)@.rounds },
                    ..old(self)@
                }),
                None => old(self)@.rounds.ready.len() == 0 && final(self)@ == old(self)@,
            },
    {
        self.round_state.pop_msg()
    }

    /// The node starts at time `now`: the first leader proposes.
    pub fn start(&mut self, now: u64) -> (r: Option<u64>)
        requires
            old(self).wf(),
        ensures
            final(self).wf(),
            (final(self)@, r) == (if old(self)@.rotation.current == old(self)@.my_id {
                old(self)@.paced(now)
            } else {
                (old(self)@, None)
            }),
    {
        if self.sig_leader_context.leader() == self.my_id {
            self.handle_new_sig_round(now)
        } else {
            None
        }
    }

    /// A round that this node leads has begun at time `now`. Returns the round to propose for;
    /// without one the proposal is put off.
    pub fn handle_new_sig_round(&mut self, now: u64) -> (r: Option<u64>)
        requires
            old(self).wf(),
        ensures
            final(self).wf(),
            (final(self)@, r) == old(self)@.paced(now),
    {
        let round: u64 = self.round_state.round();
        if self.propose_interval > 0 {
            if let Some(last) = self.last_propose_at {
                if now < last || now - last < self.propose_interval {
                    self.pending_propose_round = Some(round);
                    return None;
                }
            }
        }
        self.last_propose_at = Some(now);
        self.pending_propose_round = None;
        Some(round)
    }

    /// Whether the proposal of the current round is put off.
    pub fn has_pending_propose(&self) -> (r: bool)
        ensures
            r == (self@.pending_propose_round == Some(self@.rounds.round)),
    {
        match self.pending_propose_round {
            Some(r) => r == self.round_state.round(),
            None => false,
        }
    }

    /// The pace timer fired at time `now`: a proposal of the current round that was put off is made
    /// once the interval has passed. Returns the round to propose for.
    pub fn try_fire_pending_propose(&mut self, now: u64) -> (r: Option<u64>)
        requires
            old(self).wf(),
        ensures
            final(self).wf(),
            (final(self)@, r) == old(self)@.fired(now),
    {
        if !self.has_pending_propose() {
            return None;
        }
        if self.propose_interval > 0 {
            if let Some(last) = self.last_propose_at {
                if now < last || now - last < self.propose_interval {
                    return None;
                }
            }
        }
        self.last_propose_at = Some(now);
        self.pending_propose_round = None;
        Some(self.round_state.round())
    }

    /// The attestation that this node signs as the leader of round `r`.
    pub fn make_multi_attestation(&self, snapshots: &FnvHashMap<usize, DataHeadSnapshot>, r: u64) -> (e:
        MultiAttestationEnvelope)
        ensures
            e.epoch_s == self@.epoch,
            e.round_s == r,
            e.parent_hash_s == self@.tip.highest_hash,
            e.heads@ == fresh_heads(sorted(self@.ids), snapshots@, self@.prev_attested),
            e.blames@ == silent_authors(sorted(self@.ids), snapshots@, self@.prev_attested),
    {
        attestation_envelope(
            &self.all_ids,
            snapshots,
            &self.prev_attested_heights,
            self.signature_epoch,
            r,
            self.sig_chain_state.highest_hash(),
        )
    }

    /// The proposal for round `r` that stands for the attestation of this digest.
    pub fn do_propose(&self, att_hash: Digest, r: u64) -> (p: Proposal)
        ensures
            p == (Proposal {
                block: Block { batch_hash: att_hash, parent_hash: self@.tip.highest_hash },
                round: r,
                qc: None,
            }),
    {
        Proposal::new(Block { batch_hash: att_hash, parent_hash: self.sig_chain_state.highest_hash() }, r, None)
    }

    /// The proposal has been sent: what is attested for each author from here on is above the head
    /// that it has now.
    pub fn on_proposed(&mut self, snapshots: &FnvHashMap<usize, DataHeadSnapshot>)
        requires
            old(self).wf(),
        ensures
            final(self).wf(),
            final(self)@ == (SigState {
                prev_attested: old(self)@.prev_attested.union_prefer_right(
                    old(self)@.ids.to_set().mk_map(
                        |id: usize|
                            if snapshots@.contains_key(id) {
                                snapshots@[id].height
                            } else {
                                0
                            },
                    ),
                ),
                ..old(self)@
            }),
    {
        let ghost start = self@;
        let mut i: usize = 0;
        let ghost height = |id: usize|
            if snapshots@.contains_key(id) {
                snapshots@[id].height
            } else {
                0
            };
        proof {
            assert(self@.prev_attested =~= start.prev_attested.union_prefer_right(
                self.all_ids@.take(0).to_set().mk_map(height),
            ));
        }
        while i < self.all_ids.len()
            invariant
                i <= self.all_ids@.len(),
                start == old(self)@,
                self@ == (SigState { prev_attested: self@.prev_attested, ..start }),
                height == (|id: usize|
                    if snapshots@.contains_key(id) {
                        snapshots@[id].height
                    } else {
                        0
                    }),
                self@.prev_attested =~= start.prev_attested.union_prefer_right(
                    self.all_ids@.take(i as int).to_set().mk_map(height),
                ),
                start.inv(),
            decreases self.all_ids@.len() - i,
        {
            let id: usize = self.all_ids[i];
            let ghost prior = self.all_ids@.take(i as int);
            let ghost next = self.all_ids@.take(i as int + 1);
            let h: u64 = match map_get(snapshots, &id) {
                Some(s) => s.height,
                None => 0,
            };
            proof {
                assert(next =~= prior.push(id));
                assert(next.to_set() =~= prior.to_set().insert(id)) by {
                    assert(next[i as int] == id);
                    assert forall|a: usize| prior.contains(a) implies #[trigger] next.contains(a) by {
                        let j = choose|j: int| 0 <= j < prior.len() && prior[j] == a;
                        assert(next[j] == a);
                    }
                }
            }
            map_insert(&mut self.prev_attested_heights, id, h);
            i += 1;
        }
        assert(self.all_ids@.take(i as int) =~= self.all_ids@);
    }

    /// The node whose key a proposal of the current round has to verify with: the leader, unless
    /// that is this node.
    pub fn proposal_signer(&self) -> (r: Option<usize>)
        ensures
            r == (if self@.rotation.current == self@.my_id {
                None
            } else {
                Some(self@.rotation.current)
            }),
    {
        let leader: usize = self.sig_leader_context.leader();
        if leader == self.my_id {
            None
        } else {
            Some(leader)
        }
    }

    /// Judges the signature of an attestation. `verified` tells whether it verifies with its
    /// signer's key, if the signer has one.
    pub fn multi_attestation_sig_valid(&self, att: &MultiAttestation, verified: bool) -> (r: SigAttestationValidity)
        ensures
            r == (if self@.known.contains(att.sig_s.signer) && verified {
                SigAttestationValidity::Valid
            } else {
                SigAttestationValidity::Invalid
            }),
    {
        if set_contains(&self.known, &att.sig_s.signer) && verified {
            SigAttestationValidity::Valid
        } else {
            SigAttestationValidity::Invalid
        }
    }

    /// What a decided attestation tells the data plane: its heads and the round that decided them.
    pub fn on_committed_attestation(&self, committed: &HeraCommittedAttestation) -> (r: CommitEmit)
        ensures
            r.heads@ == committed.attestation.envelope.heads@,
            r.sig_round == committed.sig_round,
    {
        let heads = &committed.attestation.envelope.heads;
        let mut out: Vec<DataHead> = Vec::new();
        let mut i: usize = 0;
        while i < heads.len()
            invariant
                i <= heads@.len(),
                heads@ == committed.attestation.envelope.heads@,
                out@ =~= heads@.take(i as int),
            decreases heads@.len() - i,
        {
            out.push(heads[i]);
            i += 1;
        }
        assert(heads@.take(i as int) =~= heads@);
        CommitEmit { heads: out, sig_round: committed.sig_round }
    }

    /// A message to a peer is under way. Returns the ticket of the message to the peer that is given
    /// up for it, if there are too many.
    pub fn push_cancel_handler(&mut self, peer: usize, ticket: u64) -> (r: Option<u64>)
        requires
            old(self).wf(),
        ensures
            final(self).wf(),
            final(self)@ == (SigState {
                under_way: old(self)@.under_way.insert(peer, pushed(old(self)@.under_way_to(peer), ticket)),
                ..old(self)@
            }),
            r == (if old(self)@.under_way_to(peer).len() >= MAX_CANCEL_HANDLERS_PER_PEER {
                Some(old(self)@.under_way_to(peer).push(ticket)[0])
            } else {
                None
            }),
    {
        self.cancel_handlers.push_cancel_handler(peer, ticket)
    }

    fn push_hints(heads: &Vec<DataHead>, holder: usize) -> (r: Vec<SigAction<Tx>>)
        ensures
            r@ == hints::<Tx>(heads@, holder),
    {
        let mut out: Vec<SigAction<Tx>> = Vec::new();
        let mut i: usize = 0;
        assert(heads@.take(0) =~= Seq::empty());
        while i < heads.len()
            invariant
                i <= heads@.len(),
                out@ == hints::<Tx>(heads@.take(i as int), holder),
            decreases heads@.len() - i,
        {
            assert(heads@.take(i as int + 1).drop_last() =~= heads@.take(i as int));
            let h: DataHead = heads[i];
            if h.height > 0 || h.epoch > 0 {
                out.push(SigAction::FetchHint { hash: h.hash, holder });
            }
            i += 1;
        }
        assert(heads@.take(i as int) =~= heads@);
        out
    }

    /// A proposal of the current round. `leader_ok` tells whether its signature verifies with the
    /// leader's key, `att` what the check of its attestation says, `parent` whether its parent is
    /// in storage.
    pub fn handle_sig_proposal(
        &mut self,
        msg: &Arc<SigProposal>,
        leader_ok: bool,
        att: SigAttestationValidity,
        parent: ParentLookup,
    ) -> (r: Result<ProposalStep<Tx>, SigError>)
        requires
            old(self).wf(),
        ensures
            final(self).wf(),
            ({
                let e = old(self)@.proposed(*msg, leader_ok, att, parent);
                &&& final(self)@ == e.0
                &&& match r {
                    Ok(step) => e.1 == Ok::<(Seq<SigAction<Tx>>, bool), SigError>((step.actions@, step.agreed)),
                    Err(err) => e.1 == Err::<(Seq<SigAction<Tx>>, bool), SigError>(err),
                }
            }),
    {
        let ghost start = self@;
        let round: u64 = msg.proposal.round;
        if round != self.round_state.round() {
            let actions: Vec<SigAction<Tx>> = Vec::new();
            assert(actions@ =~= Seq::empty());
            return Ok(ProposalStep { actions, agreed: false });
        }
        let leader: usize = self.sig_leader_context.leader();
        if leader != self.my_id {
            if !set_contains(&self.known, &leader) {
                return Err(SigError::UnknownLeader(leader));
            }
            if !leader_ok {
                return Err(SigError::BadSignature);
            }
        }
        if att == SigAttestationValidity::Invalid {
            let actions: Vec<SigAction<Tx>> = Vec::new();
            assert(actions@ =~= Seq::empty());
            return Ok(ProposalStep { actions, agreed: false });
        }
        let mut actions = Self::push_hints(&msg.attestation.envelope.heads, msg.sender);
        let ghost fetch = actions@;
        match parent {
            ParentLookup::Present => {
                let next: usize = self.sig_leader_context.next_leader();
                if next != self.my_id {
                    actions.push(
                        SigAction::Send {
                            to: next,
                            msg: HeraMsg::SigRelay {
                                proposal: share(&msg.proposal),
                                auth: share(&msg.auth),
                                att_hash: msg.proposal.block.batch_hash,
                                sender: self.my_id,
                            },
                        },
                    );
                }
                assert(actions@ =~= fetch.add(start.relay(*msg)));
                Ok(ProposalStep { actions, agreed: true })
            },
            ParentLookup::Failed => Ok(ProposalStep { actions, agreed: false }),
            ParentLookup::Missing => {
                let target: Digest = msg.proposal.block.parent_hash;
                self.park(msg);
                let highest: u64 = self.sig_chain_state.highest_round();
                let below: u64 = if round == 0 {
                    0
                } else {
                    round - 1
                };
                if below > highest && below - highest > 1 {
                    actions.push(
                        SigAction::Send {
                            to: msg.sender,
                            msg: HeraMsg::SigElementRangeRequest {
                                source: self.my_id,
                                from_round: highest + 1,
                                to_round: below,
                            },
                        },
                    );
                } else {
                    let ghost mid = self@;
                    let mut ask = self.request_sig_element_from(target, msg.sender);
                    actions.append(&mut ask);
                    assert(actions@ =~= fetch.add(mid.element_request(target, msg.sender)));
                }
                Ok(ProposalStep { actions, agreed: false })
            },
        }
    }

    fn park(&mut self, msg: &Arc<SigProposal>)
        ensures
            final(self)@ == old(self)@.with_parked(*msg),
    {
        let ghost start = self@;
        let parent: Digest = msg.proposal.block.parent_hash;
        let mut line: Vec<Arc<SigProposal>> = match map_remove(&mut self.pending_sig_proposals, &parent) {
            Some(v) => v,
            None => Vec::new(),
        };
        assert(line@ =~= start.parked_on(parent));
        line.push(share(msg));
        map_insert(&mut self.pending_sig_proposals, parent, line);
        assert(self@.parked =~= start.with_parked(*msg).parked);
    }

    /// Asks for an element from a node that has it, or from everybody if that is this node; not
    /// twice for one element.
    pub fn request_sig_element_from(&mut self, target_hash: Digest, holder: usize) -> (r: Vec<SigAction<Tx>>)
        ensures
            r@ == old(self)@.element_request(target_hash, holder),
            final(self)@ == old(self)@.asked(target_hash),
    {
        let ghost start = self@;
        let mut out: Vec<SigAction<Tx>> = Vec::new();
        if set_insert(&mut self.pending_sig_element_requests, target_hash) {
            let msg = HeraMsg::SigElementRequest { source: self.my_id, target_hash };
            if holder == self.my_id {
                out.push(SigAction::Broadcast(msg));
            } else {
                out.push(SigAction::Send { to: holder, msg });
            }
        }
        assert(out@ =~= start.element_request(target_hash, holder));
        out
    }

    /// Asks everybody for the elements of some rounds. An empty range asks for nothing.
    pub fn broadcast_sig_range_request(&self, from_round: u64, to_round: u64) -> (r: Option<SigAction<Tx>>)
        ensures
            r == (if from_round > to_round {
                None
            } else {
                Some(
                    SigAction::Broadcast(
                        HeraMsg::<Tx>::SigElementRangeRequest { source: self@.my_id, from_round, to_round },
                    ),
                )
            }),
    {
        if from_round > to_round {
            return None;
        }
        Some(
            SigAction::Broadcast(
                HeraMsg::SigElementRangeRequest { source: self.my_id, from_round, to_round },
            ),
        )
    }

    /// Asks everybody for what is missing up to `round`, whose element is `target`.
    fn request_gap(&mut self, round: u64, target: Digest) -> (r: Vec<SigAction<Tx>>)
        ensures
            r@ == old(self)@.gap_request(round, target),
            final(self)@ == old(self)@.gap_asked(round, target),
    {
        let highest: u64 = self.sig_chain_state.highest_round();
        if round > highest && round - highest > 1 {
            let mut out: Vec<SigAction<Tx>> = Vec::new();
            if let Some(a) = self.broadcast_sig_range_request(highest + 1, round) {
                out.push(a);
            }
            assert(out@ =~= self@.gap_request(round, target));
            out
        } else {
            let me: usize = self.my_id;
            self.request_sig_element_from(target, me)
        }
    }

    /// A peer asks for an element: it gets it if storage has it.
    pub fn on_sig_element_request(&self, found: Option<Arc<SigElement>>, source: usize) -> (r: Option<SigAction<Tx>>)
        ensures
            r == (match found {
                Some(element) => Some(
                    SigAction::Send { to: source, msg: HeraMsg::<Tx>::SigElementResponse { element } },
                ),
                None => None,
            }),
    {
        match found {
            Some(element) => Some(SigAction::Send { to: source, msg: HeraMsg::SigElementResponse { element } }),
            None => None,
        }
    }

    /// An element came. `true` if it is wanted and to be stored; it counts as asked for no more.
    pub fn accept_element(&mut self, hash: &Digest) -> (r: bool)
        requires
            old(self).wf(),
        ensures
            final(self).wf(),
            r == old(self)@.wants(*hash),
            final(self)@ == (if r {
                SigState { requested: old(self)@.requested.remove(*hash), ..old(self)@ }
            } else {
                old(self)@
            }),
    {
        if !map_contains(&self.pending_sig_proposals, hash) && !set_contains(&self.pending_sig_element_requests, hash) {
            return false;
        }
        set_remove(&mut self.pending_sig_element_requests, hash);
        true
    }

    /// An element has been stored: what is missing below it is asked for, and the proposals that
    /// waited for it are handled again.
    pub fn on_sig_element_response(&mut self, element: &Arc<SigElement>, parent_present: bool) -> (r: Vec<SigAction<Tx>>)
        requires
            old(self).wf(),
        ensures
            final(self).wf(),
            ({
                let below = SigState::<Tx>::below(element.proposal.round);
                let target = element.proposal.block.parent_hash;
                let s = if parent_present {
                    old(self)@
                } else {
                    old(self)@.gap_asked(below, target)
                };
                let ask = if parent_present {
                    Seq::empty()
                } else {
                    old(self)@.gap_request(below, target)
                };
                &&& final(self)@ == (SigState { parked: s.parked.remove(element.hash), ..s })
                &&& r@ == ask.add(replays(s.parked_on(element.hash)))
            }),
    {
        let ghost start = self@;
        let mut out: Vec<SigAction<Tx>> = Vec::new();
        assert(out@ =~= Seq::empty());
        if !parent_present {
            let round: u64 = element.proposal.round;
            let below: u64 = if round == 0 {
                0
            } else {
                round - 1
            };
            out = self.request_gap(below, element.proposal.block.parent_hash);
        }
        let mut again = self.drain_pending_sig_proposals(&element.hash);
        out.append(&mut again);
        out
    }

    /// The proposals that waited for an element, to be handled again.
    pub fn drain_pending_sig_proposals(&mut self, element_hash: &Digest) -> (r: Vec<SigAction<Tx>>)
        ensures
            final(self)@ == (SigState { parked: old(self)@.parked.remove(*element_hash), ..old(self)@ }),
            r@ == replays::<Tx>(old(self)@.parked_on(*element_hash)),
    {
        let ghost start = self@;
        let line: Vec<Arc<SigProposal>> = match map_remove(&mut self.pending_sig_proposals, element_hash) {
            Some(v) => v,
            None => Vec::new(),
        };
        assert(line@ =~= start.parked_on(*element_hash));
        assert(self@.parked =~= start.parked.remove(*element_hash));
        let mut out: Vec<SigAction<Tx>> = Vec::new();
        let mut i: usize = 0;
        while i < line.len()
            invariant
                i <= line@.len(),
                out@ =~= replays::<Tx>(line@.take(i as int)),
            decreases line@.len() - i,
        {
            out.push(SigAction::Loopback(HeraMsg::SigPropose(share(&line[i]))));
            assert(out@ =~= replays::<Tx>(line@.take(i as int + 1)));
            i += 1;
        }
        assert(line@.take(i as int) =~= line@);
        out
    }

    /// One of several elements came. `true` if it is wanted, or of a round that is not to come, and
    /// to be stored; it counts as asked for no more.
    pub fn accept_range_element(&mut self, element: &Arc<SigElement>) -> (r: bool)
        requires
            old(self).wf(),
        ensures
            final(self).wf(),
            r == (old(self)@.wants(element.hash) || element.proposal.round <= old(self)@.rounds.round),
            final(self)@ == (if r {
                SigState { requested: old(self)@.requested.remove(element.hash), ..old(self)@ }
            } else {
                old(self)@
            }),
    {
        if !map_contains(&self.pending_sig_proposals, &element.hash) && !set_contains(
            &self.pending_sig_element_requests,
            &element.hash,
        ) && element.proposal.round > self.round_state.round() {
            return false;
        }
        set_remove(&mut self.pending_sig_element_requests, &element.hash);
        true
    }

    /// The element of the agreed proposal has been stored: it is the highest one, and the round is
    /// over.
    pub fn on_correct_sig_proposal(&mut self, hash: Digest, round: u64, now: u64) -> (r: Option<u64>)
        requires
            old(self).wf(),
            old(self)@.can_advance(),
        ensures
            final(self).wf(),
            old(self)@.rotation.eligible_next().contains(final(self)@.rotation.next),
            (final(self)@, r) == (SigState {
                tip: ChainTip { highest_hash: hash, highest_round: round, ..old(self)@.tip },
                ..old(self)@
            }).advanced(final(self)@.rotation.next, now),
    {
        self.sig_chain_state.update_highest_chain(hash, round);
        self.advance_sig_round(now)
    }

    /// Moves on to the next round. Returns the round to propose for, if this node leads it and may
    /// propose already.
    pub fn advance_sig_round(&mut self, now: u64) -> (r: Option<u64>)
        requires
            old(self).wf(),
            old(self)@.can_advance(),
        ensures
            final(self).wf(),
            old(self)@.rotation.eligible_next().contains(final(self)@.rotation.next),
            (final(self)@, r) == old(self)@.advanced(final(self)@.rotation.next, now),
    {
        self.sig_leader_context.advance_round();
        self.round_state.advance_round();
        self.timer_enabled = true;
        if self.sig_leader_context.leader() == self.my_id {
            self.handle_new_sig_round(now)
        } else {
            None
        }
    }

    /// A blame of the current round. `verified` tells whether its signature verifies with the key
    /// of the node that made it; `have_highest` whether the highest element that the blames report
    /// is in storage or cannot be looked up.
    pub fn handle_sig_blame(
        &mut self,
        blame_round: u64,
        auth: &Arc<Signature>,
        highest_round: u64,
        highest_hash: Digest,
        verified: bool,
        have_highest: bool,
        now: u64,
    ) -> (r: Result<BlameStep<Tx>, SigError>)
        requires
            old(self).wf(),
            old(self)@.can_advance(),
        ensures
            final(self).wf(),
            ({
                let s = old(self)@;
                let noted = s.blamed(*auth, highest_round, highest_hash);
                if s.blame_is_moot(blame_round) {
                    final(self)@ == s && (r matches Ok(step) && step.is_nothing())
                } else if !s.known.contains(auth.signer) {
                    final(self)@ == s && r == Err::<BlameStep<Tx>, SigError>(SigError::UnknownBlamer(auth.signer))
                } else if !verified {
                    final(self)@ == s && r == Err::<BlameStep<Tx>, SigError>(SigError::BadSignature)
                } else if noted.rounds.blames.dom().len() < s.qc_len() {
                    final(self)@ == noted && (r matches Ok(step) && step.is_nothing())
                } else {
                    &&& r matches Ok(step) && exists|qc: Arc<Certificate>| #[trigger]
                        certifies(qc.sigs@, noted.rounds.blames) && ended(
                            SigState { rounds: RoundView { blames: Map::empty(), ..noted.rounds }, ..noted },
                            blame_round,
                            qc,
                            noted.reported(),
                            have_highest,
                            now,
                            final(self)@,
                            step,
                        )
                }
            }),
    {
        if self.sig_chain_state.highest_round() == blame_round || self.round_state.got_qc() {
            return Ok(BlameStep { actions: Vec::new(), advanced: false, propose: None });
        }
        let qc_len: usize = commit_len(self.all_ids.len(), self.num_faults);
        let origin: usize = auth.signer;
        if !set_contains(&self.known, &origin) {
            return Err(SigError::UnknownBlamer(origin));
        }
        if !verified {
            return Err(SigError::BadSignature);
        }
        self.round_state.add_blame(share(auth), highest_round, highest_hash);
        let ghost noted = self@;
        if self.round_state.blame_count() < qc_len {
            return Ok(BlameStep { actions: Vec::new(), advanced: false, propose: None });
        }
        let best: (u64, Digest) = match self.round_state.blame_best() {
            Some(b) => b,
            None => (0, self.sig_chain_state.highest_hash()),
        };
        let qc = Arc::new(self.round_state.take_certificate());
        let ghost mid = self@;
        let step = self.handle_sig_blame_qc(blame_round, share(&qc), best.0, best.1, have_highest, now);
        proof {
            let s = SigState { rounds: RoundView { blames: Map::empty(), ..noted.rounds }, ..noted };
            assert(certifies(qc.sigs@, noted.rounds.blames));
            assert(mid =~= SigState { rounds: RoundView { got_qc: true, ..s.rounds }, ..s });
            assert(mid.certified(blame_round, qc, best.0, best.1, have_highest) == s.certified(
                blame_round,
                qc,
                best.0,
                best.1,
                have_highest,
            ));
        }
        Ok(step)
    }

    /// The highest element reported for the round, once a blame that reports this one is noted.
    pub fn highest_reported(&self, highest_round: u64, highest_hash: Digest) -> (r: (u64, Digest))
        ensures
            forall|auth: Arc<Signature>| r == (#[trigger] self@.blamed(auth, highest_round, highest_hash)).reported(),
    {
        match self.round_state.blame_best() {
            Some(b) => if highest_round > b.0 {
                (highest_round, highest_hash)
            } else {
                b
            },
            None => (highest_round, highest_hash),
        }
    }

    /// A certificate for a round came. `verified` tells whether it verifies.
    pub fn on_sig_blame_qc(
        &mut self,
        blame_round: u64,
        qc: &Arc<Certificate>,
        highest_round: u64,
        highest_hash: Digest,
        verified: bool,
        have_highest: bool,
        now: u64,
    ) -> (r: Result<BlameStep<Tx>, SigError>)
        requires
            old(self).wf(),
            old(self)@.can_advance(),
        ensures
            final(self).wf(),
            if old(self)@.rounds.got_qc {
                final(self)@ == old(self)@ && (r matches Ok(step) && step.is_nothing())
            } else if !verified {
                final(self)@ == old(self)@ && r == Err::<BlameStep<Tx>, SigError>(SigError::BadSignature)
            } else {
                r matches Ok(step) && ended(
                    old(self)@,
                    blame_round,
                    *qc,
                    (highest_round, highest_hash),
                    have_highest,
                    now,
                    final(self)@,
                    step,
                )
            },
    {
        if self.round_state.got_qc() {
            return Ok(BlameStep { actions: Vec::new(), advanced: false, propose: None });
        }
        if !verified {
            return Err(SigError::BadSignature);
        }
        Ok(self.handle_sig_blame_qc(blame_round, share(qc), highest_round, highest_hash, have_highest, now))
    }

    fn handle_sig_blame_qc(
        &mut self,
        blame_round: u64,
        qc: Arc<Certificate>,
        highest_round: u64,
        highest_hash: Digest,
        have_highest: bool,
        now: u64,
    ) -> (r: BlameStep<Tx>)
        requires
            old(self).wf(),
            old(self)@.can_advance(),
        ensures
            final(self).wf(),
            ended(
                old(self)@,
                blame_round,
                qc,
                (highest_round, highest_hash),
                have_highest,
                now,
                final(self)@,
                r,
            ),
    {
        let ghost start = self@;
        self.round_state.set_got_qc();
        let mut actions: Vec<SigAction<Tx>> = Vec::new();
        actions.push(
            SigAction::Broadcast(
                HeraMsg::SigBlameQC { round: blame_round, qc: share(&qc), highest_round, highest_hash },
            ),
        );
        let ghost out = actions@;
        assert(out =~= seq![
            SigAction::Broadcast(
                HeraMsg::<Tx>::SigBlameQC { round: blame_round, qc, highest_round, highest_hash },
            ),
        ]);
        self.sig_chain_state.add_qc(blame_round, qc);
        if highest_round > self.sig_chain_state.highest_round() && !have_highest {
            let mut ask = self.request_gap(highest_round, highest_hash);
            actions.append(&mut ask);
        }
        assert((self@, actions@) == start.certified(blame_round, qc, highest_round, highest_hash, have_highest));
        let propose = self.advance_sig_round(now);
        BlameStep { actions, advanced: true, propose }
    }

    /// The round took too long: the timer stops, and this node blames the round. Returns the round
    /// to sign.
    pub fn on_round_timeout(&mut self) -> (r: u64)
        requires
            old(self).wf(),
        ensures
            final(self).wf(),
            r == old(self)@.rounds.round,
            final(self)@ == (SigState { timer_enabled: false, ..old(self)@ }),
    {
        self.timer_enabled = false;
        self.round_state.round()
    }

    /// The signed blame of a round, to everybody and to this node itself. It reports the highest
    /// element that this node has.
    pub fn blame(&self, round: u64, auth: &Arc<Signature>) -> (r: Vec<SigAction<Tx>>)
        ensures
            r@ == seq![
                SigAction::Broadcast(self@.blame_msg(round, *auth)),
                SigAction::Loopback(self@.blame_msg(round, *auth)),
            ],
    {
        let highest_round: u64 = self.sig_chain_state.highest_round();
        let highest_hash: Digest = self.sig_chain_state.highest_hash();
        let mut out: Vec<SigAction<Tx>> = Vec::new();
        out.push(SigAction::Broadcast(HeraMsg::SigBlame { round, auth: share(auth), highest_round, highest_hash }));
        out.push(SigAction::Loopback(HeraMsg::SigBlame { round, auth: share(auth), highest_round, highest_hash }));
        assert(out@ =~= seq![
            SigAction::Broadcast(self@.blame_msg(round, *auth)),
            SigAction::Loopback(self@.blame_msg(round, *auth)),
        ]);
        out
    }

    /// The node whose key a proposal of a later round has to verify with before this node catches
    /// up to that round: whoever leads it. Without a key, or too far ahead, there is none.
    pub fn verify_future_proposal(&self, r: u64) -> (leader: Option<usize>)
        requires
            self.wf(),
            self@.rotation.round + MAX_SIG_CATCHUP <= u64::MAX,
        ensures
            match leader {
                Some(id) => self@.within_reach(r) && self@.known.contains(id) && self@.rotation.may_lead(
                    (r - self@.rounds.round) as nat,
                    id,
                ),
                None => self@.within_reach(r) ==> exists|id: usize|
                    #[trigger] self@.rotation.may_lead((r - self@.rounds.round) as nat, id)
                        && !self@.known.contains(id),
            },
    {
        let cur: u64 = self.round_state.round();
        if r <= cur || r - cur > MAX_SIG_CATCHUP {
            return None;
        }
        let mut ctx = self.sig_leader_context.duplicate();
        ctx.advance_by(r - cur);
        let leader: usize = ctx.leader();
        assert(self@.rotation.reaches((r - cur) as nat, ctx@));
        assert(self@.rotation.may_lead((r - cur) as nat, leader));
        if set_contains(&self.known, &leader) {
            Some(leader)
        } else {
            None
        }
    }

    /// Catches up to a later round, if it is within reach.
    pub fn catch_up_to(&mut self, target: u64)
        requires
            old(self).wf(),
            old(self)@.rotation.round + MAX_SIG_CATCHUP <= u64::MAX,
        ensures
            final(self).wf(),
            if old(self)@.within_reach(target) {
                &&& old(self)@.rotation.reaches(
                    (target - old(self)@.rounds.round) as nat,
                    final(self)@.rotation,
                )
                &&& final(self)@ == (SigState {
                    rotation: final(self)@.rotation,
                    rounds: old(self)@.rounds.fast_forwarded(target),
                    timer_enabled: true,
                    ..old(self)@
                })
            } else {
                final(self)@ == old(self)@
            },
    {
        let cur: u64 = self.round_state.round();
        if target <= cur || target - cur > MAX_SIG_CATCHUP {
            return;
        }
        self.sig_leader_context.advance_by(target - cur);
        self.round_state.fast_forward(target);
        self.timer_enabled = true;
    }

    /// A message came. A proposal or a certificate of a later round proves, if it verifies
    /// (`verified`), that the others are there: this node catches up first. Messages of a round wait
    /// for it; the rest is handled at once.
    pub fn dispatch(&mut self, msg: HeraMsg<Tx>, verified: bool) -> (r: Routed)
        requires
            old(self).wf(),
            old(self)@.rotation.round + MAX_SIG_CATCHUP <= u64::MAX,
        ensures
            final(self).wf(),
            dispatched(old(self)@, msg, verified, final(self)@, r),
    {
        let ghost start = self@;
        match msg {
            HeraMsg::SigPropose(p) => {
                let round: u64 = p.proposal.round;
                if round > self.round_state.round() && verified {
                    self.catch_up_to(round);
                }
                assert(caught_up(start, round, verified, self@));
                self.round_state.enqueue(HeraMsg::SigPropose(p), round);
                Routed::Queued
            },
            HeraMsg::SigBlameQC { round, qc, highest_round, highest_hash } => {
                if round > self.round_state.round() && verified {
                    self.catch_up_to(round);
                }
                assert(caught_up(start, round, verified, self@));
                self.round_state.enqueue(
                    HeraMsg::SigBlameQC { round, qc, highest_round, highest_hash },
                    round,
                );
                Routed::Queued
            },
            HeraMsg::SigBlame { round, auth, highest_round, highest_hash } => {
                self.round_state.enqueue(
                    HeraMsg::SigBlame { round, auth, highest_round, highest_hash },
                    round,
                );
                Routed::Queued
            },
            HeraMsg::SigElementRequest { source, target_hash } => Routed::ElementRequest { source, target_hash },
            HeraMsg::SigElementResponse { element } => Routed::ElementResponse(element),
            HeraMsg::SigElementRangeRequest { source, from_round, to_round } => Routed::RangeRequest {
                source,
                from_round,
                to_round,
            },
            HeraMsg::SigElementRangeResponse { elements } => Routed::RangeResponse(elements),
            _ => Routed::Ignored,
        }
    }
}

impl<Tx> BlameStep<Tx> {
    /// Nothing is to be done.
    pub open spec fn is_nothing(self) -> bool {
        self.actions@.len() == 0 && !self.advanced && self.propose is None
    }
}

impl<Tx> SigState<Tx> {
    /// A blame by this node.
    pub open spec fn blame_msg(self, round: u64, auth: Arc<Signature>) -> HeraMsg<Tx> {
        HeraMsg::SigBlame {
            round,
            auth,
            highest_round: self.tip.highest_round,
            highest_hash: self.tip.highest_hash,
        }
    }
}

/// A certificate ends the round: it is passed on and kept, what is missing is asked for, and the
/// next round begins.
pub open spec fn ended<Tx>(
    s: SigState<Tx>,
    round: u64,
    qc: Arc<Certificate>,
    highest: (u64, Digest),
    have_highest: bool,
    now: u64,
    end: SigState<Tx>,
    step: BlameStep<Tx>,
) -> bool {
    let c = s.certified(round, qc, highest.0, highest.1, have_highest);
    &&& step.advanced
    &&& step.actions@ == c.1
    &&& s.rotation.eligible_next().contains(end.rotation.next)
    &&& (end, step.propose) == c.0.advanced(end.rotation.next, now)
}

/// The state after the node may have caught up to `round`.
pub open spec fn caught_up<Tx>(s: SigState<Tx>, round: u64, verified: bool, end: SigState<Tx>) -> bool {
    if round > s.rounds.round && verified && s.within_reach(round) {
        &&& s.rotation.reaches((round - s.rounds.round) as nat, end.rotation)
        &&& end == (SigState {
            rotation: end.rotation,
            rounds: s.rounds.fast_forwarded(round),
            timer_enabled: true,
            ..s
        })
    } else {
        end == s
    }
}

/// What a message leads to.
pub open spec fn dispatched<Tx>(
    s: SigState<Tx>,
    msg: HeraMsg<Tx>,
    verified: bool,
    end: SigState<Tx>,
    r: Routed,
) -> bool {
    match msg {
        HeraMsg::SigPropose(p) => r is Queued && exists|mid: SigState<Tx>| #[trigger]
            caught_up(s, p.proposal.round, verified, mid) && end == (SigState {
                rounds: mid.rounds.enqueued(msg, p.proposal.round),
                ..mid
            }),
        HeraMsg::SigBlameQC { round, .. } => r is Queued && exists|mid: SigState<Tx>| #[trigger]
            caught_up(s, round, verified, mid) && end == (SigState {
                rounds: mid.rounds.enqueued(msg, round),
                ..mid
            }),
        HeraMsg::SigBlame { round, .. } => r is Queued && end == (SigState {
            rounds: s.rounds.enqueued(msg, round),
            ..s
        }),
        HeraMsg::SigElementRequest { source, target_hash } => end == s && r == (Routed::ElementRequest {
            source,
            target_hash,
        }),
        HeraMsg::SigElementResponse { element } => end == s && r == Routed::ElementResponse(element),
        HeraMsg::SigElementRangeRequest { source, from_round, to_round } => end == s && r == (Routed::RangeRequest {
            source,
            from_round,
            to_round,
        }),
        HeraMsg::SigElementRangeResponse { elements } => end == s && r == Routed::RangeResponse(elements),
        _ => end == s && r is Ignored,
    }
}

} // verus!
