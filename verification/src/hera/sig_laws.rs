//! What holds of the signature plane across its operations.
use crate::digest::Digest;
use crate::hera::attestation::SigAttestationValidity;
use crate::hera::round_state::RoundView;
use crate::hera::sig::{
    dispatched, ended, hints, replays, BlameStep, ParentLookup, Routed, SigAction, SigError, SigState,
};
use crate::hera::types::{DataHead, HeraMsg, SigProposal};
use crate::types::{Certificate, Signature};
use std::sync::Arc;
use vstd::prelude::*;

verus! {

/// A node agrees only to a proposal of the current round whose signatures are good and whose parent
/// it has, so that the committed chain never has a gap.
pub proof fn law_agreement_needs_parent<Tx>(
    s: SigState<Tx>,
    msg: Arc<SigProposal>,
    leader_ok: bool,
    att: SigAttestationValidity,
    parent: ParentLookup,
)
    requires
        s.proposed(msg, leader_ok, att, parent).1 matches Ok(step) && step.1,
    ensures
        msg.proposal.round == s.rounds.round,
        parent == ParentLookup::Present,
        att == SigAttestationValidity::Valid,
        s.rotation.current == s.my_id || (leader_ok && s.known.contains(s.rotation.current)),
        s.proposed(msg, leader_ok, att, parent).0 == s,
{
}

/// A proposal that waits for its parent is handled again when the parent comes, in its turn.
pub proof fn law_parked_proposal_is_replayed<Tx>(s: SigState<Tx>, msg: Arc<SigProposal>)
    ensures
        ({
            let parent = msg.proposal.block.parent_hash;
            let out = replays::<Tx>(s.with_parked(msg).parked_on(parent));
            &&& out.len() == s.parked_on(parent).len() + 1
            &&& out.last() == SigAction::Loopback(HeraMsg::<Tx>::SigPropose(msg))
        }),
{
}

/// An element is asked for once, until it has come.
pub proof fn law_element_is_asked_for_once<Tx>(s: SigState<Tx>, target: Digest, holder: usize, other: usize)
    ensures
        !s.requested.contains(target) ==> s.element_request(target, holder).len() == 1,
        s.asked(target).element_request(target, other).len() == 0,
        s.asked(target).wants(target),
{
}

/// A paced node leaves at least its interval between two proposals.
pub proof fn law_proposals_are_paced<Tx>(s: SigState<Tx>, first: u64, second: u64)
    requires
        s.paced(first).1 is Some,
        s.paced(first).0.paced(second).1 is Some,
        s.propose_interval > 0,
    ensures
        second >= first + s.propose_interval,
{
}

/// A proposal that was put off is made, once, as soon as the interval has passed, if its round is not
/// over by then.
pub proof fn law_deferred_proposal_fires<Tx>(s: SigState<Tx>, now: u64, later: u64)
    requires
        s.too_soon(now),
    ensures
        ({
            let e = s.paced(now).0;
            &&& s.paced(now).1 is None
            &&& s.too_soon(later) ==> e.fired(later) == (e, None::<u64>)
            &&& !s.too_soon(later) ==> e.fired(later).1 == Some(s.rounds.round)
            &&& !s.too_soon(later) ==> e.fired(later).0.fired(later).1 is None
        }),
{
}

/// Among the blames of a round, the highest element reported is the one that counts.
pub proof fn law_highest_report_counts<Tx>(
    s: SigState<Tx>,
    auth: Arc<Signature>,
    highest_round: u64,
    highest_hash: Digest,
)
    ensures
        ({
            let e = s.blamed(auth, highest_round, highest_hash);
            &&& e.reported().0 >= highest_round
            &&& s.rounds.best is Some ==> e.reported().0 >= s.reported().0
            &&& e.reported().0 == highest_round || e.reported() == s.reported()
        }),
{
}

/// A certificate ends its round: the node is in the next one, without a certificate for it, and
/// keeps the certificate of the old one. The chain itself does not grow.
pub proof fn law_certificate_ends_round<Tx>(
    s: SigState<Tx>,
    round: u64,
    qc: Arc<Certificate>,
    highest: (u64, Digest),
    have_highest: bool,
    now: u64,
    end: SigState<Tx>,
    step: BlameStep<Tx>,
)
    requires
        s.can_advance(),
        ended(s, round, qc, highest, have_highest, now, end, step),
    ensures
        end.rounds.round == s.rounds.round + 1,
        !end.rounds.got_qc,
        end.rounds.blames == Map::<usize, Arc<Signature>>::empty(),
        end.tip.qcs[round] == qc,
        end.tip.highest_hash == s.tip.highest_hash,
        end.timer_enabled,
        step.propose is Some ==> end.rotation.current == end.my_id,
{
}

/// After the first certificate of a round, a blame or another certificate has no effect on it.
pub proof fn law_first_certificate_counts<Tx>(s: SigState<Tx>, round: u64)
    requires
        s.rounds.got_qc,
    ensures
        s.blame_is_moot(round),
{
}

/// A node never jumps back, nor over more rounds than it may.
pub proof fn law_catch_up_is_bounded<Tx>(s: SigState<Tx>, target: u64)
    requires
        s.within_reach(target),
    ensures
        s.rounds.fast_forwarded(target).round == target,
        s.rounds.round < target <= s.rounds.round + crate::hera::sig::MAX_SIG_CATCHUP,
        s.rounds.fast_forwarded(target).ready == s.rounds.waiting(target),
{
    let f = s.rounds.fast_forwarded(target);
    assert(f.ready =~= RoundView { ready: Seq::empty(), ..s.rounds }.waiting(target));
}

/// The round that a message belongs to, if it waits for one.
pub open spec fn round_of<Tx>(msg: HeraMsg<Tx>) -> Option<u64> {
    match msg {
        HeraMsg::SigPropose(p) => Some(p.proposal.round),
        HeraMsg::SigBlame { round, .. } => Some(round),
        HeraMsg::SigBlameQC { round, .. } => Some(round),
        _ => None,
    }
}

/// A message of a round that comes in is not lost, be it a proposal, a blame or a certificate. A
/// verified proposal or certificate of a later round, not too far ahead, takes the node to that round.
/// After that a message of the node's round is the last one that is ready, one of a later round waits
/// for it behind those that came before, and only one of a round that is over is dropped.
pub proof fn law_dispatched_message_is_kept<Tx>(
    s: SigState<Tx>,
    msg: HeraMsg<Tx>,
    verified: bool,
    end: SigState<Tx>,
    r: Routed,
)
    requires
        dispatched(s, msg, verified, end, r),
        round_of(msg) is Some,
    ensures
        ({
            let m = round_of(msg)->0;
            let jumps = verified && !(msg is SigBlame) && s.rounds.round < m <= s.rounds.round + 4096;
            let before = if s.rounds.future.contains_key(m) {
                s.rounds.future[m]
            } else {
                Seq::empty()
            };
            &&& r is Queued
            &&& end.rounds.round == (if jumps {
                m
            } else {
                s.rounds.round
            })
            &&& jumps ==> end.rounds.ready == before.push(msg)
            &&& !jumps && m == s.rounds.round ==> end.rounds.ready == s.rounds.ready.push(msg)
            &&& !jumps && m > s.rounds.round ==> end.rounds.future.contains_key(m)
            &&& !jumps && m > s.rounds.round ==> end.rounds.future[m] == before.push(msg)
            &&& !jumps && m != s.rounds.round ==> end.rounds.ready == s.rounds.ready
            &&& m < s.rounds.round ==> end == s
            &&& forall|o: u64|
                o != m && o > end.rounds.round ==> (#[trigger] end.rounds.future.contains_key(o)
                    <==> s.rounds.future.contains_key(o))
            &&& forall|o: u64|
                o != m && o > end.rounds.round && s.rounds.future.contains_key(o) ==> #[trigger] end.rounds.future[o]
                    == s.rounds.future[o]
        }),
{
}

/// What a message of a round leaves alone: the chain, what is parked or asked for, what is attested
/// and the pace of proposals, and, unless the node catches up, the blames of the round and the
/// rotation. A node that catches up starts the round afresh, as many turns on.
pub proof fn law_dispatch_leaves_the_rest<Tx>(
    s: SigState<Tx>,
    msg: HeraMsg<Tx>,
    verified: bool,
    end: SigState<Tx>,
    r: Routed,
)
    requires
        dispatched(s, msg, verified, end, r),
    ensures
        end.my_id == s.my_id,
        end.ids == s.ids,
        end.known == s.known,
        end.num_faults == s.num_faults,
        end.tip == s.tip,
        end.epoch == s.epoch,
        end.prev_attested == s.prev_attested,
        end.parked == s.parked,
        end.requested == s.requested,
        end.propose_interval == s.propose_interval,
        end.last_propose_at == s.last_propose_at,
        end.pending_propose_round == s.pending_propose_round,
        end.under_way == s.under_way,
        round_of(msg) is None ==> end == s,
        end.rounds.round == s.rounds.round ==> end.rotation == s.rotation && end.rounds.blames == s.rounds.blames
            && end.rounds.best == s.rounds.best && end.rounds.got_qc == s.rounds.got_qc && end.timer_enabled
            == s.timer_enabled,
        end.rounds.round != s.rounds.round ==> end.rounds.blames == Map::<usize, Arc<Signature>>::empty()
            && end.rounds.best is None && !end.rounds.got_qc && end.timer_enabled,
        end.rounds.round != s.rounds.round ==> s.rotation.reaches(
            (end.rounds.round - s.rounds.round) as nat,
            end.rotation,
        ),
{
}

/// A message that belongs to no round goes to its handler with all it holds, and the data plane's
/// messages have no place here.
pub proof fn law_other_messages_are_routed<Tx>(
    s: SigState<Tx>,
    msg: HeraMsg<Tx>,
    verified: bool,
    end: SigState<Tx>,
    r: Routed,
)
    requires
        dispatched(s, msg, verified, end, r),
    ensures
        msg matches HeraMsg::SigElementRequest { source, target_hash } ==> r == (Routed::ElementRequest {
            source,
            target_hash,
        }),
        msg matches HeraMsg::SigElementResponse { element } ==> r == Routed::ElementResponse(element),
        msg matches HeraMsg::SigElementRangeRequest { source, from_round, to_round } ==> r == (Routed::RangeRequest {
            source,
            from_round,
            to_round,
        }),
        msg matches HeraMsg::SigElementRangeResponse { elements } ==> r == Routed::RangeResponse(elements),
        msg is DataPropose || msg is DataRequest || msg is DataResponse ==> r is Ignored,
        r is Queued <==> round_of(msg) is Some,
{
}

/// A node agrees to a proposal exactly if it is of the current round, made by the leader or by the
/// node itself as the leader, carries a valid attestation, and its parent is here.
pub proof fn law_what_is_agreed_to<Tx>(
    s: SigState<Tx>,
    msg: Arc<SigProposal>,
    leader_ok: bool,
    att: SigAttestationValidity,
    parent: ParentLookup,
)
    ensures
        ({
            let r = s.proposed(msg, leader_ok, att, parent).1;
            let leader = s.rotation.current;
            let current = msg.proposal.round == s.rounds.round;
            let keyed = leader == s.my_id || s.known.contains(leader);
            let signed = leader == s.my_id || leader_ok;
            let valid = att == SigAttestationValidity::Valid;
            &&& r is Err <==> current && (!keyed || !signed)
            &&& current && !keyed ==> r->Err_0 == SigError::UnknownLeader(leader)
            &&& current && keyed && !signed ==> r->Err_0 == SigError::BadSignature
            &&& r is Ok ==> (r->Ok_0.1 <==> current && keyed && signed && valid && parent == ParentLookup::Present)
            &&& !current || (r is Ok && !valid) ==> r->Ok_0.0.len() == 0
            &&& !(current && keyed && signed && valid && parent == ParentLookup::Missing) ==> s.proposed(
                msg,
                leader_ok,
                att,
                parent,
            ).0 == s
        }),
{
}

proof fn lemma_hints_cover<Tx>(heads: Seq<DataHead>, holder: usize)
    ensures
        forall|i: int|
            0 <= i < heads.len() && ((#[trigger] heads[i]).height > 0 || heads[i].epoch > 0) ==> hints::<Tx>(
                heads,
                holder,
            ).contains(SigAction::FetchHint { hash: heads[i].hash, holder }),
        forall|k: int| 0 <= k < hints::<Tx>(heads, holder).len() ==> (#[trigger] hints::<Tx>(heads, holder)[k]) is FetchHint,
        hints::<Tx>(heads, holder).len() <= heads.len(),
    decreases heads.len(),
{
    let all = hints::<Tx>(heads, holder);
    if heads.len() > 0 {
        let rest = heads.drop_last();
        lemma_hints_cover::<Tx>(rest, holder);
        let before = hints::<Tx>(rest, holder);
        assert forall|i: int| 0 <= i < heads.len() && ((#[trigger] heads[i]).height > 0 || heads[i].epoch > 0) implies all.contains(
            SigAction::FetchHint { hash: heads[i].hash, holder },
        ) by {
            let a = SigAction::<Tx>::FetchHint { hash: heads[i].hash, holder };
            if i < rest.len() {
                assert(rest[i] == heads[i]);
                assert(before.contains(a));
                let k = choose|k: int| 0 <= k < before.len() && before[k] == a;
                assert(all[k] == a);
            } else {
                assert(all[before.len() as int] == a);
            }
        }
        assert forall|k: int| 0 <= k < all.len() implies (#[trigger] all[k]) is FetchHint by {
            if k < before.len() {
                assert(all[k] == before[k]);
            }
        }
    }
}

/// The blocks that a proposal refers to are fetched from whoever sent it, all but those that need no
/// fetch: height 0 of epoch 0. An agreed proposal is relayed to the node that leads once the round has
/// advanced, whoever is drawn after that one, and there is no relay exactly if that is this node.
pub proof fn law_agreed_proposal_is_relayed<Tx>(
    s: SigState<Tx>,
    msg: Arc<SigProposal>,
    leader_ok: bool,
    att: SigAttestationValidity,
    drawn: usize,
    now: u64,
)
    requires
        s.proposed(msg, leader_ok, att, ParentLookup::Present).1 is Ok,
        s.proposed(msg, leader_ok, att, ParentLookup::Present).1->Ok_0.1,
    ensures
        ({
            let actions = s.proposed(msg, leader_ok, att, ParentLookup::Present).1->Ok_0.0;
            let heads = msg.attestation.envelope.heads@;
            let leader = s.advanced(drawn, now).0.rotation.current;
            let relay = SigAction::Send {
                to: leader,
                msg: HeraMsg::<Tx>::SigRelay {
                    proposal: msg.proposal,
                    auth: msg.auth,
                    att_hash: msg.proposal.block.batch_hash,
                    sender: s.my_id,
                },
            };
            &&& forall|i: int|
                0 <= i < heads.len() && ((#[trigger] heads[i]).height > 0 || heads[i].epoch > 0) ==> actions.contains(
                    SigAction::FetchHint { hash: heads[i].hash, holder: msg.sender },
                )
            &&& leader != s.my_id ==> actions.len() > 0 && actions.last() == relay
            &&& leader == s.my_id ==> forall|k: int| 0 <= k < actions.len() ==> (#[trigger] actions[k]) is FetchHint
            &&& forall|k: int| 0 <= k < actions.len() - 1 ==> (#[trigger] actions[k]) is FetchHint
        }),
{
    let heads = msg.attestation.envelope.heads@;
    let fetch = hints::<Tx>(heads, msg.sender);
    let actions = s.proposed(msg, leader_ok, att, ParentLookup::Present).1->Ok_0.0;
    lemma_hints_cover::<Tx>(heads, msg.sender);
    assert forall|k: int| 0 <= k < fetch.len() implies #[trigger] actions[k] == fetch[k] by {}
    assert forall|i: int| 0 <= i < heads.len() && ((#[trigger] heads[i]).height > 0 || heads[i].epoch > 0) implies actions.contains(
        SigAction::FetchHint { hash: heads[i].hash, holder: msg.sender },
    ) by {
        let a = SigAction::<Tx>::FetchHint { hash: heads[i].hash, holder: msg.sender };
        assert(fetch.contains(a));
        let k = choose|k: int| 0 <= k < fetch.len() && fetch[k] == a;
        assert(actions[k] == a);
    }
    assert forall|k: int| 0 <= k < fetch.len() implies (#[trigger] actions[k]) is FetchHint by {
        assert(fetch[k] is FetchHint);
    }
}

/// A proposal whose parent is missing waits for it, behind those that wait already, and the parent is
/// asked for from whoever sent the proposal: in one request for all rounds that are missing below it
/// if there are several, and for itself if not, unless it has been asked for.
pub proof fn law_missing_parent_is_asked_for<Tx>(
    s: SigState<Tx>,
    msg: Arc<SigProposal>,
    leader_ok: bool,
    att: SigAttestationValidity,
)
    requires
        msg.proposal.round == s.rounds.round,
        s.rotation.current == s.my_id || (s.known.contains(s.rotation.current) && leader_ok),
        att == SigAttestationValidity::Valid,
    ensures
        ({
            let e = s.proposed(msg, leader_ok, att, ParentLookup::Missing).0;
            let r = s.proposed(msg, leader_ok, att, ParentLookup::Missing).1;
            let target = msg.proposal.block.parent_hash;
            let round = msg.proposal.round;
            let several = round > s.tip.highest_round + 2;
            let range = SigAction::Send {
                to: msg.sender,
                msg: HeraMsg::<Tx>::SigElementRangeRequest {
                    source: s.my_id,
                    from_round: (s.tip.highest_round + 1) as u64,
                    to_round: (round - 1) as u64,
                },
            };
            let request = HeraMsg::<Tx>::SigElementRequest { source: s.my_id, target_hash: target };
            &&& r is Ok
            &&& !r->Ok_0.1
            &&& e.parked.contains_key(target)
            &&& e.parked[target].last() == msg
            &&& e.parked[target].drop_last() == (if s.parked.contains_key(target) {
                s.parked[target]
            } else {
                Seq::empty()
            })
            &&& forall|h: Digest|
                h != target ==> (#[trigger] e.parked.contains_key(h) <==> s.parked.contains_key(h))
            &&& forall|h: Digest| h != target && s.parked.contains_key(h) ==> #[trigger] e.parked[h] == s.parked[h]
            &&& several ==> r->Ok_0.0.last() == range && e.requested == s.requested
            &&& !several ==> e.requested == s.requested.insert(target)
            &&& !several && !s.requested.contains(target) ==> r->Ok_0.0.last() == (if msg.sender == s.my_id {
                SigAction::Broadcast(request)
            } else {
                SigAction::Send { to: msg.sender, msg: request }
            })
            &&& e.tip == s.tip && e.rounds == s.rounds && e.rotation == s.rotation
        }),
{
    let target = msg.proposal.block.parent_hash;
    let e = s.proposed(msg, leader_ok, att, ParentLookup::Missing).0;
    assert(e.parked[target].drop_last() =~= s.parked_on(target));
}

/// What a request asks for and of whom: an element from its holder, or from everybody if the holder is
/// this node, and never twice. A gap of one element is asked for by its digest, a wider one by its
/// rounds, of everybody.
pub proof fn law_requests_say_what_is_missing<Tx>(s: SigState<Tx>, round: u64, target: Digest, holder: usize)
    ensures
        ({
            let one = HeraMsg::<Tx>::SigElementRequest { source: s.my_id, target_hash: target };
            let range = HeraMsg::<Tx>::SigElementRangeRequest {
                source: s.my_id,
                from_round: (s.tip.highest_round + 1) as u64,
                to_round: round,
            };
            let wide = round > s.tip.highest_round + 1;
            let fresh = !s.requested.contains(target);
            &&& !fresh ==> s.element_request(target, holder).len() == 0
            &&& fresh ==> s.element_request(target, holder).len() == 1
            &&& fresh && holder == s.my_id ==> s.element_request(target, holder)[0] == SigAction::Broadcast(one)
            &&& fresh && holder != s.my_id ==> s.element_request(target, holder)[0] == (SigAction::Send {
                to: holder,
                msg: one,
            })
            &&& s.asked(target) == (SigState { requested: s.requested.insert(target), ..s })
            &&& wide ==> s.gap_request(round, target).len() == 1 && s.gap_asked(round, target) == s
            &&& wide ==> s.gap_request(round, target)[0] == SigAction::Broadcast(range)
            &&& !wide ==> s.gap_asked(round, target) == (SigState { requested: s.requested.insert(target), ..s })
            &&& !wide && fresh ==> s.gap_request(round, target).len() == 1 && s.gap_request(round, target)[0]
                == SigAction::Broadcast(one)
            &&& !wide && !fresh ==> s.gap_request(round, target).len() == 0
            &&& SigState::<Tx>::below(round) == (if round > 0 {
                round - 1
            } else {
                0
            })
            &&& s.wants(target) <==> s.requested.contains(target) || s.parked.contains_key(target)
        }),
{
}

/// Every proposal that waited for an element goes back to the node itself when it comes, in order.
pub proof fn law_waiting_proposals_are_replayed<Tx>(s: SigState<Tx>, parent: Digest, i: int)
    requires
        s.parked.contains_key(parent),
        0 <= i < s.parked[parent].len(),
    ensures
        replays::<Tx>(s.parked_on(parent)).len() == s.parked[parent].len(),
        replays::<Tx>(s.parked_on(parent))[i] == SigAction::Loopback(
            HeraMsg::<Tx>::SigPropose(s.parked[parent][i]),
        ),
{
}

/// Nothing is replayed for an element that nobody waits for.
pub proof fn law_nothing_is_replayed_unasked<Tx>(s: SigState<Tx>, parent: Digest)
    requires
        !s.parked.contains_key(parent),
    ensures
        replays::<Tx>(s.parked_on(parent)).len() == 0,
{
}

/// The next round is led by whoever was next, one turn of the rotation on, and its timer runs. What
/// waited for it is ready. The node proposes in it exactly if it leads it and has left its interval
/// since its last proposal; a proposal that comes too soon is put off. The chain stays as it is.
pub proof fn law_next_round<Tx>(s: SigState<Tx>, drawn: usize, now: u64)
    requires
        s.can_advance(),
    ensures
        ({
            let (e, propose) = s.advanced(drawn, now);
            let next = (s.rounds.round + 1) as u64;
            let leads = s.rotation.next == s.my_id;
            let due = s.propose_interval == 0 || s.last_propose_at is None || now >= s.last_propose_at->0
                + s.propose_interval;
            &&& e.rounds.round == next
            &&& e.rotation == s.rotation.turned(drawn)
            &&& e.rotation.current == s.rotation.next
            &&& e.rotation.next == drawn
            &&& e.timer_enabled
            &&& propose == (if leads && due {
                Some(next)
            } else {
                None
            })
            &&& leads && due ==> e.last_propose_at == Some(now) && e.pending_propose_round is None
            &&& leads && !due ==> e.pending_propose_round == Some(next) && e.last_propose_at == s.last_propose_at
            &&& !leads ==> e.pending_propose_round == s.pending_propose_round && e.last_propose_at == s.last_propose_at
            &&& s.rounds.future.contains_key(next) ==> e.rounds.ready == s.rounds.ready.add(s.rounds.future[next])
            &&& !s.rounds.future.contains_key(next) ==> e.rounds.ready == s.rounds.ready
            &&& e.rounds.blames == Map::<usize, Arc<Signature>>::empty()
            &&& e.rounds.best is None
            &&& !e.rounds.got_qc
            &&& forall|o: u64| o > next ==> (#[trigger] e.rounds.future.contains_key(o) <==> s.rounds.future.contains_key(o))
            &&& forall|o: u64| o > next && s.rounds.future.contains_key(o) ==> #[trigger] e.rounds.future[o]
                == s.rounds.future[o]
            &&& e.tip == s.tip && e.parked == s.parked && e.requested == s.requested && e.prev_attested
                == s.prev_attested && e.under_way == s.under_way && e.my_id == s.my_id && e.ids == s.ids && e.known
                == s.known && e.epoch == s.epoch && e.num_faults == s.num_faults && e.propose_interval
                == s.propose_interval
        }),
{
    let next = (s.rounds.round + 1) as u64;
    assert(s.rounds.ready.add(Seq::empty()) =~= s.rounds.ready);
}

/// A leader proposes for its round exactly if it has left its interval since its last proposal, and
/// puts the proposal off if not; one that was put off is made as soon as the interval has passed, in
/// its round and no other.
pub proof fn law_pace<Tx>(s: SigState<Tx>, now: u64)
    ensures
        ({
            let due = s.propose_interval == 0 || s.last_propose_at is None || now >= s.last_propose_at->0
                + s.propose_interval;
            let pending = s.pending_propose_round == Some(s.rounds.round);
            &&& due ==> s.paced(now) == (
                SigState { last_propose_at: Some(now), pending_propose_round: None, ..s },
                Some(s.rounds.round),
            )
            &&& !due ==> s.paced(now) == (
                SigState { pending_propose_round: Some(s.rounds.round), ..s },
                None::<u64>,
            )
            &&& due && pending ==> s.fired(now) == (
                SigState { last_propose_at: Some(now), pending_propose_round: None, ..s },
                Some(s.rounds.round),
            )
            &&& !(due && pending) ==> s.fired(now) == (s, None::<u64>)
        }),
{
}

/// A blame counts for the node that made it, once, and the highest element reported first counts.
pub proof fn law_blame_is_noted<Tx>(s: SigState<Tx>, auth: Arc<Signature>, highest_round: u64, highest_hash: Digest)
    ensures
        ({
            let e = s.blamed(auth, highest_round, highest_hash);
            &&& e.rounds.blames == s.rounds.blames.insert(auth.signer, auth)
            &&& s.rounds.best is None || highest_round > (s.rounds.best->0).0 ==> e.rounds.best == Some(
                (highest_round, highest_hash),
            )
            &&& s.rounds.best is Some && highest_round <= (s.rounds.best->0).0 ==> e.rounds.best == s.rounds.best
            &&& e == (SigState {
                rounds: RoundView { blames: e.rounds.blames, best: e.rounds.best, ..s.rounds },
                ..s
            })
            &&& e.reported() == e.rounds.best->0
            &&& s.blame_is_moot(highest_round) <==> s.tip.highest_round == highest_round || s.rounds.got_qc
        }),
{
}

/// As many blames make a certificate as a quorum has nodes: more than half of the nodes and of those
/// that may fail together, and no more than that takes.
pub proof fn law_blame_quorum<Tx>(s: SigState<Tx>)
    requires
        s.ids.len() + s.num_faults < usize::MAX,
    ensures
        s.ids.len() + s.num_faults <= 2 * s.qc_len() <= s.ids.len() + s.num_faults + 1,
{
}

/// What ends a round by blame: the certificate goes to everybody, with the highest element reported,
/// and is kept under its round; a higher element that is missing here is asked for, and nothing else
/// is. The next round follows, with the same chain.
pub proof fn law_certificate_goes_out<Tx>(
    s: SigState<Tx>,
    round: u64,
    qc: Arc<Certificate>,
    highest: (u64, Digest),
    have_highest: bool,
    now: u64,
    end: SigState<Tx>,
    step: BlameStep<Tx>,
)
    requires
        s.can_advance(),
        ended(s, round, qc, highest, have_highest, now, end, step),
    ensures
        step.advanced,
        step.actions@.len() >= 1,
        step.actions@[0] == SigAction::Broadcast(
            HeraMsg::<Tx>::SigBlameQC { round, qc, highest_round: highest.0, highest_hash: highest.1 },
        ),
        ({
            let lacking = highest.0 > s.tip.highest_round && !have_highest;
            let wide = highest.0 > s.tip.highest_round + 1;
            &&& !lacking ==> step.actions@.len() == 1 && end.requested == s.requested
            &&& lacking && wide ==> step.actions@.len() == 2 && end.requested == s.requested
            &&& lacking && wide ==> step.actions@[1] == SigAction::Broadcast(
                HeraMsg::<Tx>::SigElementRangeRequest {
                    source: s.my_id,
                    from_round: (s.tip.highest_round + 1) as u64,
                    to_round: highest.0,
                },
            )
            &&& lacking && !wide ==> end.requested == s.requested.insert(highest.1)
            &&& lacking && !wide && !s.requested.contains(highest.1) ==> step.actions@.len() == 2
            &&& lacking && !wide && !s.requested.contains(highest.1) ==> step.actions@[1] == SigAction::Broadcast(
                HeraMsg::<Tx>::SigElementRequest { source: s.my_id, target_hash: highest.1 },
            )
        }),
        end.tip.qcs == s.tip.qcs.insert(round, qc),
        end.tip.highest_hash == s.tip.highest_hash,
        end.tip.highest_round == s.tip.highest_round,
        end.rounds.round == s.rounds.round + 1,
        end.rotation.current == s.rotation.next,
        end.rotation == s.rotation.turned(end.rotation.next),
        s.rotation.eligible_next().contains(end.rotation.next),
        end.parked == s.parked,
        end.prev_attested == s.prev_attested,
        step.propose is Some ==> s.rotation.next == s.my_id && step.propose == Some(end.rounds.round),
        s.rotation.next == s.my_id && s.propose_interval == 0 ==> step.propose is Some,
{
    law_next_round(s.certified(round, qc, highest.0, highest.1, have_highest).0, end.rotation.next, now);
}

/// A blame of this node tells the highest element that it has.
pub proof fn law_blame_reports_own_tip<Tx>(s: SigState<Tx>, round: u64, auth: Arc<Signature>)
    ensures
        s.blame_msg(round, auth) == (HeraMsg::<Tx>::SigBlame {
            round,
            auth,
            highest_round: s.tip.highest_round,
            highest_hash: s.tip.highest_hash,
        }),
{
}

/// The blocks that an attestation refers to are fetched in the order of its heads, each from the holder,
/// and one of height 0 and epoch 0 is not.
pub proof fn law_one_fetch_per_head<Tx>(heads: Seq<DataHead>, head: DataHead, holder: usize)
    ensures
        hints::<Tx>(Seq::<DataHead>::empty(), holder).len() == 0,
        head.height > 0 || head.epoch > 0 ==> hints::<Tx>(heads.push(head), holder) == hints::<Tx>(heads, holder).push(
            SigAction::FetchHint { hash: head.hash, holder },
        ),
        head.height == 0 && head.epoch == 0 ==> hints::<Tx>(heads.push(head), holder) == hints::<Tx>(heads, holder),
{
    assert(heads.push(head).drop_last() =~= heads);
}

/// What else a proposal leads to: with a parent that cannot be looked up, its blocks are fetched and
/// nothing more. With a parent that is missing there is one request besides, and none if the parent has
/// been asked for alone.
pub proof fn law_proposals_fetch_their_blocks<Tx>(
    s: SigState<Tx>,
    msg: Arc<SigProposal>,
    leader_ok: bool,
    att: SigAttestationValidity,
)
    requires
        msg.proposal.round == s.rounds.round,
        s.rotation.current == s.my_id || (s.known.contains(s.rotation.current) && leader_ok),
        att == SigAttestationValidity::Valid,
    ensures
        ({
            let fetch = hints::<Tx>(msg.attestation.envelope.heads@, msg.sender);
            let (e, failed) = s.proposed(msg, leader_ok, att, ParentLookup::Failed);
            let missing = s.proposed(msg, leader_ok, att, ParentLookup::Missing).1;
            let target = msg.proposal.block.parent_hash;
            let several = msg.proposal.round > s.tip.highest_round + 2;
            let quiet = !several && s.requested.contains(target);
            &&& e == s
            &&& failed == Ok::<(Seq<SigAction<Tx>>, bool), SigError>((fetch, false))
            &&& missing is Ok
            &&& quiet ==> missing->Ok_0.0 == fetch
            &&& !quiet ==> missing->Ok_0.0.drop_last() == fetch && missing->Ok_0.0.len() == fetch.len() + 1
        }),
{
    let fetch = hints::<Tx>(msg.attestation.envelope.heads@, msg.sender);
    let missing = s.proposed(msg, leader_ok, att, ParentLookup::Missing).1;
    let target = msg.proposal.block.parent_hash;
    if msg.proposal.round <= s.tip.highest_round + 2 && s.requested.contains(target) {
        assert(missing->Ok_0.0 =~= fetch);
    } else {
        assert(missing->Ok_0.0.drop_last() =~= fetch);
    }
}

/// A node catches up at once to a later round that is at most 4096 rounds ahead.
pub proof fn law_reach<Tx>(s: SigState<Tx>, target: u64, peer: usize)
    ensures
        s.within_reach(target) <==> s.rounds.round < target <= s.rounds.round + 4096,
        s.under_way.contains_key(peer) ==> s.under_way_to(peer) == s.under_way[peer],
        !s.under_way.contains_key(peer) ==> s.under_way_to(peer).len() == 0,
        s.rounds.best is None ==> s.reported() == (0u64, s.tip.highest_hash),
        s.can_advance() <==> s.rounds.round < u64::MAX && s.rotation.round < u64::MAX,
{
}

/// A step that does nothing sends nothing, ends no round and proposes nothing.
pub proof fn law_idle_step<Tx>(step: BlameStep<Tx>)
    ensures
        step.is_nothing() <==> step.actions@.len() == 0 && !step.advanced && step.propose is None,
{
}

} // verus!
