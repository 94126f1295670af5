use consensus::hera::attestation::{HeraCommittedAttestation, SigAttestationValidity};
use consensus::hera::data_chain::DataHeadSnapshot;
use consensus::hera::range::{RangeStep, RangeWalk, MAX_RANGE_RESPONSE};
use consensus::hera::round_state::HeraRoundState;
use consensus::hera::sig::{
    handle_sig_ordered, Hera, Ordered, ParentLookup, Routed, SigAction, SigError, MAX_SIG_CATCHUP,
};
use consensus::hera::types::{
    AttestationSig, DataHead, HeraMsg, MultiAttestation, MultiAttestationEnvelope, SigElement, SigProposal,
};
use consensus::types::{Block, Certificate, Proposal, Signature};
use fnv::FnvHashMap;
use std::sync::Arc;

type Msg = HeraMsg<u8>;

fn digest(n: u8) -> [u8; 32] {
    [n; 32]
}

fn sig(signer: usize) -> Arc<Signature> {
    Arc::new(Signature { raw: vec![signer as u8], signer })
}

fn node(my_id: usize) -> Hera<u8> {
    Hera::new(my_id, vec![0, 1, 2, 3], &vec![0, 1, 2, 3], 1, digest(0), [3; 32], 0)
}

fn proposal(round: u64, parent: u8, sender: usize) -> Arc<SigProposal> {
    let heads = vec![
        DataHead { author: 0, hash: digest(50), height: 0, epoch: 0 },
        DataHead { author: 1, hash: digest(51), height: 4, epoch: 1 },
    ];
    let envelope =
        MultiAttestationEnvelope { epoch_s: 1, round_s: round, parent_hash_s: digest(parent), heads, blames: vec![] };
    Arc::new(SigProposal {
        proposal: Arc::new(Proposal::new(
            Block { batch_hash: digest(60), parent_hash: digest(parent) },
            round,
            None,
        )),
        auth: sig(sender),
        attestation: Arc::new(MultiAttestation::new(envelope, AttestationSig { raw: vec![], signer: sender })),
        sender,
    })
}

fn element(round: u64, hash: u8, parent: u8) -> Arc<SigElement> {
    let p = proposal(round, parent, 0);
    Arc::new(SigElement {
        proposal: p.proposal.clone(),
        auth: p.auth.clone(),
        payload: vec![p.attestation.clone()],
        hash: digest(hash),
    })
}

const VALID: SigAttestationValidity = SigAttestationValidity::Valid;

#[test]
fn the_first_leader_proposes_at_the_start() {
    let mut first = node(0);
    assert_eq!(first.round(), 1);
    assert_eq!(first.rleader(), 0);
    assert_eq!(first.start(5), Some(1));
    assert_eq!(node(1).start(5), None);
    assert_eq!(first.proposal_signer(), None);
    assert_eq!(node(1).proposal_signer(), Some(0));
}

#[test]
fn proposals_attest_and_extend_the_tip() {
    let mut n = node(0);
    let mut snaps: FnvHashMap<usize, DataHeadSnapshot> = FnvHashMap::default();
    snaps.insert(1, DataHeadSnapshot { epoch: 1, height: 2, hash: digest(9) });
    let e = n.make_multi_attestation(&snaps, 1);
    assert_eq!(e.heads.len(), 1);
    assert_eq!(e.blames, vec![0, 2, 3]);
    assert_eq!(e.parent_hash_s, digest(0));
    let p = n.do_propose(digest(8), 1);
    assert_eq!((p.block.batch_hash, p.block.parent_hash, p.round), (digest(8), digest(0), 1));
    n.on_proposed(&snaps);
    // The same head is not attested twice.
    assert_eq!(n.make_multi_attestation(&snaps, 2).blames, vec![0, 1, 2, 3]);
}

#[test]
fn paced_nodes_put_proposals_off() {
    let mut n: Hera<u8> = Hera::new(0, vec![0, 1, 2, 3], &vec![0, 1, 2, 3], 1, digest(0), [3; 32], 100);
    assert_eq!(n.handle_new_sig_round(1_000), Some(1));
    assert_eq!(n.handle_new_sig_round(1_099), None);
    assert_eq!(n.handle_new_sig_round(1_100), Some(1));
    assert!(!n.has_pending_propose());
    assert_eq!(n.try_fire_pending_propose(5_000), None);
}

#[test]
fn deferred_proposals_fire_once_the_interval_has_passed() {
    let mut n: Hera<u8> = Hera::new(0, vec![0, 1, 2, 3], &vec![0, 1, 2, 3], 1, digest(0), [3; 32], 100);
    assert_eq!(n.handle_new_sig_round(1_000), Some(1));
    assert_eq!(n.handle_new_sig_round(1_050), None);
    assert!(n.has_pending_propose());
    assert_eq!(n.try_fire_pending_propose(1_099), None);
    assert!(n.has_pending_propose());
    assert_eq!(n.try_fire_pending_propose(1_100), Some(1));
    assert!(!n.has_pending_propose());
    assert_eq!(n.try_fire_pending_propose(1_300), None);
    // The one that fired counts for the pace, and a round that is over is not proposed for.
    assert_eq!(n.handle_new_sig_round(1_199), None);
    n.advance_sig_round(1_199);
    assert_eq!(n.try_fire_pending_propose(9_000), None);
}

#[test]
fn correct_proposals_are_agreed_on_and_relayed() {
    let mut n = node(2);
    let step = n.handle_sig_proposal(&proposal(1, 0, 0), true, VALID, ParentLookup::Present).unwrap();
    assert!(step.agreed);
    // Only the head that is not the genesis block is fetched, from the sender.
    match &step.actions[0] {
        SigAction::FetchHint { hash, holder } => assert_eq!((*hash, *holder), (digest(51), 0)),
        _ => panic!("a hint"),
    }
    for a in &step.actions[1..] {
        match a {
            SigAction::Send { to, msg: HeraMsg::SigRelay { att_hash, sender, .. } } => {
                assert_ne!(*to, 2);
                assert_eq!((*att_hash, *sender), (digest(60), 2));
            }
            _ => panic!("a relay"),
        }
    }
    n.on_correct_sig_proposal(digest(1), 1, 0);
    assert_eq!(n.round(), 2);
    assert_eq!(n.highest(), (digest(1), 1));
}

#[test]
fn bad_proposals_are_refused() {
    let mut n = node(1);
    let wrong = n.handle_sig_proposal(&proposal(2, 0, 0), true, VALID, ParentLookup::Present).unwrap();
    assert!(!wrong.agreed && wrong.actions.is_empty());
    let forged = n.handle_sig_proposal(&proposal(1, 0, 0), false, VALID, ParentLookup::Present);
    assert!(matches!(forged, Err(SigError::BadSignature)));
    let bad = SigAttestationValidity::Invalid;
    let invalid = n.handle_sig_proposal(&proposal(1, 0, 0), true, bad, ParentLookup::Present).unwrap();
    assert!(!invalid.agreed && invalid.actions.is_empty());
    let failed = n.handle_sig_proposal(&proposal(1, 0, 0), true, VALID, ParentLookup::Failed).unwrap();
    assert!(!failed.agreed);
    assert_eq!(failed.actions.len(), 1);
    let mut lonely: Hera<u8> = Hera::new(1, vec![0, 1, 2, 3], &vec![1, 2, 3], 1, digest(0), [3; 32], 0);
    let unknown = lonely.handle_sig_proposal(&proposal(1, 0, 0), true, VALID, ParentLookup::Present);
    assert!(matches!(unknown, Err(SigError::UnknownLeader(0))));
}

#[test]
fn proposals_wait_for_their_parent() {
    let mut n = node(1);
    let p = proposal(1, 44, 3);
    let step = n.handle_sig_proposal(&p, true, VALID, ParentLookup::Missing).unwrap();
    assert!(!step.agreed);
    match step.actions.last().unwrap() {
        SigAction::Send { to: 3, msg: HeraMsg::SigElementRequest { source: 1, target_hash } } => {
            assert_eq!(*target_hash, digest(44))
        }
        _ => panic!("a request to the sender"),
    }
    // The element is under way: it is not asked for again.
    let again = n.handle_sig_proposal(&p, true, VALID, ParentLookup::Missing).unwrap();
    assert_eq!(again.actions.len(), 1);
    assert!(!n.accept_element(&digest(45)));
    assert!(n.accept_element(&digest(44)));
    let out = n.on_sig_element_response(&element(0, 44, 43), true);
    assert_eq!(out.len(), 2);
    assert!(out.iter().all(|a| matches!(a, SigAction::Loopback(HeraMsg::SigPropose(_)))));
    assert!(n.on_sig_element_response(&element(0, 44, 43), true).is_empty());
}

#[test]
fn wide_gaps_are_asked_for_as_ranges() {
    let mut n = node(1);
    n.dispatch(HeraMsg::SigPropose(proposal(9, 80, 3)), true);
    assert_eq!(n.round(), 9);
    let step = n.handle_sig_proposal(&proposal(9, 80, 3), true, VALID, ParentLookup::Missing).unwrap();
    match step.actions.last().unwrap() {
        SigAction::Send { to: 3, msg: HeraMsg::SigElementRangeRequest { source, from_round, to_round } } => {
            assert_eq!((*source, *from_round, *to_round), (1, 1, 8))
        }
        _ => panic!("a range"),
    }
    let out = n.on_sig_element_response(&element(6, 70, 69), false);
    match &out[0] {
        SigAction::Broadcast(HeraMsg::SigElementRangeRequest { from_round: 1, to_round: 5, .. }) => {}
        _ => panic!("a range"),
    }
    let near = n.on_sig_element_response(&element(2, 71, 68), false);
    assert!(matches!(&near[0], SigAction::Broadcast(HeraMsg::SigElementRequest { .. })));
    assert!(n.broadcast_sig_range_request(5, 4).is_none());
    assert!(n.broadcast_sig_range_request(4, 4).is_some());
    // Elements of rounds that are not to come are taken, others only if they are wanted.
    assert!(n.accept_range_element(&element(9, 90, 89)));
    assert!(!n.accept_range_element(&element(10, 91, 90)));
}

#[test]
fn messages_wait_for_their_round() {
    let mut n = node(1);
    assert!(matches!(
        n.dispatch(HeraMsg::SigBlame { round: 2, auth: sig(3), highest_round: 0, highest_hash: digest(0) }, false),
        Routed::Queued
    ));
    assert!(n.pop_msg().is_none());
    n.advance_sig_round(0);
    let m: Msg = n.pop_msg().unwrap();
    assert!(matches!(handle_sig_ordered(m), Ordered::Blame { round: 2, .. }));
    // A proposal that does not verify is kept for its round without catching up.
    n.dispatch(HeraMsg::SigPropose(proposal(7, 1, 0)), false);
    assert_eq!(n.round(), 2);
    // Nobody jumps too far.
    n.dispatch(HeraMsg::SigPropose(proposal(3 + MAX_SIG_CATCHUP, 1, 0)), true);
    assert_eq!(n.round(), 2);
    n.dispatch(HeraMsg::SigPropose(proposal(2 + MAX_SIG_CATCHUP, 1, 0)), true);
    assert_eq!(n.round(), 2 + MAX_SIG_CATCHUP);
    assert!(matches!(handle_sig_ordered(n.pop_msg().unwrap()), Ordered::Proposal(_)));
}

#[test]
fn other_messages_are_routed() {
    let mut n = node(1);
    match n.dispatch(HeraMsg::SigElementRequest { source: 2, target_hash: digest(5) }, false) {
        Routed::ElementRequest { source, target_hash } => assert_eq!((source, target_hash), (2, digest(5))),
        _ => panic!("a request"),
    }
    let e = element(1, 5, 0);
    assert!(matches!(n.dispatch(HeraMsg::SigElementResponse { element: e.clone() }, false), Routed::ElementResponse(_)));
    assert!(matches!(
        n.dispatch(HeraMsg::SigElementRangeRequest { source: 2, from_round: 1, to_round: 3 }, false),
        Routed::RangeRequest { source: 2, from_round: 1, to_round: 3 }
    ));
    match n.dispatch(HeraMsg::SigElementRangeResponse { elements: vec![e.clone()] }, false) {
        Routed::RangeResponse(v) => assert_eq!(v.len(), 1),
        _ => panic!("a range"),
    }
    assert!(matches!(
        n.dispatch(HeraMsg::DataRequest { target_hash: digest(1), source: 0 }, true),
        Routed::Ignored
    ));
    match n.on_sig_element_request(Some(e), 3) {
        Some(SigAction::Send { to: 3, msg: HeraMsg::SigElementResponse { element } }) => {
            assert_eq!(element.hash, digest(5))
        }
        _ => panic!("the element"),
    }
    assert!(n.on_sig_element_request(None, 3).is_none());
    assert!(matches!(handle_sig_ordered::<u8>(HeraMsg::DataRequest { target_hash: digest(1), source: 0 }), Ordered::Unexpected));
}

#[test]
fn enough_blames_end_the_round() {
    let mut n = node(3);
    assert!(n.timer_enabled());
    assert_eq!(n.on_round_timeout(), 1);
    assert!(!n.timer_enabled());
    match &n.blame(1, &sig(3))[..] {
        [SigAction::Broadcast(HeraMsg::SigBlame { round: 1, highest_round: 0, .. }), SigAction::Loopback(_)] => {}
        _ => panic!("a blame"),
    }
    let unknown = n.handle_sig_blame(1, &sig(9), 0, digest(0), true, true, 0);
    assert!(matches!(unknown, Err(SigError::UnknownBlamer(9))));
    let forged = n.handle_sig_blame(1, &sig(0), 0, digest(0), false, true, 0);
    assert!(matches!(forged, Err(SigError::BadSignature)));
    // A blame of the round of the highest element is moot.
    let moot = n.handle_sig_blame(0, &sig(0), 0, digest(0), true, true, 0).unwrap();
    assert!(!moot.advanced);
    for (id, highest) in [(0usize, 4u64), (0, 4), (1, 6)] {
        let s = n.handle_sig_blame(1, &sig(id), highest, digest(highest as u8), true, true, 0).unwrap();
        assert!(!s.advanced && s.actions.is_empty());
    }
    let end = n.handle_sig_blame(1, &sig(2), 5, digest(5), true, false, 0).unwrap();
    assert!(end.advanced);
    assert_eq!(n.round(), 2);
    assert!(n.timer_enabled());
    match &end.actions[0] {
        SigAction::Broadcast(HeraMsg::SigBlameQC { round: 1, qc, highest_round: 6, highest_hash }) => {
            assert_eq!(qc.unique_len(), 3);
            assert_eq!(*highest_hash, digest(6));
        }
        _ => panic!("a certificate"),
    }
    assert!(matches!(
        &end.actions[1],
        SigAction::Broadcast(HeraMsg::SigElementRangeRequest { from_round: 1, to_round: 6, .. })
    ));
}

#[test]
fn certificates_end_the_round() {
    let mut n = node(3);
    let qc = Arc::new(Certificate { sigs: vec![sig(0), sig(1), sig(2)] });
    let forged = n.on_sig_blame_qc(1, &qc, 0, digest(0), false, true, 0);
    assert!(matches!(forged, Err(SigError::BadSignature)));
    let end = n.on_sig_blame_qc(1, &qc, 1, digest(1), true, false, 0).unwrap();
    assert!(end.advanced);
    assert_eq!(end.actions.len(), 2);
    assert!(matches!(&end.actions[1], SigAction::Broadcast(HeraMsg::SigElementRequest { .. })));
    assert_eq!(n.round(), 2);
    assert_eq!(end.propose.is_some(), n.rleader() == 3);
}

#[test]
fn future_leaders_are_found_by_replaying_the_rotation() {
    let n = node(1);
    assert_eq!(n.verify_future_proposal(1), None);
    assert_eq!(n.verify_future_proposal(2 + MAX_SIG_CATCHUP), None);
    let leader = n.verify_future_proposal(4).unwrap();
    let mut m = node(1);
    m.catch_up_to(4);
    assert_eq!(m.rleader(), leader);
    m.catch_up_to(3);
    assert_eq!(m.round(), 4);
}

#[test]
fn the_round_buffer_drops_old_messages() {
    let mut r: HeraRoundState<u8> = HeraRoundState::new();
    let blame = |round| HeraMsg::SigBlame { round, auth: sig(1), highest_round: 0, highest_hash: digest(0) };
    r.enqueue(blame(0), 0);
    assert!(!r.is_ready());
    r.enqueue(blame(1), 1);
    r.enqueue(blame(3), 3);
    r.enqueue(blame(2), 2);
    assert!(r.is_ready());
    r.fast_forward(3);
    assert_eq!(r.round(), 3);
    assert!(matches!(r.pop_msg(), Some(HeraMsg::SigBlame { round: 3, .. })));
    assert!(r.pop_msg().is_none());
    r.fast_forward(2);
    assert_eq!(r.round(), 3);
    assert_eq!(r.blame_count(), 0);
    r.add_blame(sig(1), 5, digest(5));
    r.add_blame(sig(2), 5, digest(6));
    assert_eq!(r.blame_best(), Some((5, digest(5))));
    r.add_blame(sig(2), 7, digest(7));
    assert_eq!(r.blame_best(), Some((7, digest(7))));
    assert_eq!(r.blame_count(), 2);
    assert_eq!(r.take_certificate().unique_len(), 2);
    assert!(r.got_qc());
}

#[test]
fn ranges_are_served_lowest_first() {
    assert!(RangeWalk::begin(5, 9, digest(4), 4).is_none());
    let mut w = RangeWalk::begin(2, 3, digest(4), 4).unwrap();
    assert!(matches!(w.step(&element(4, 4, 3)), RangeStep::Read(_)));
    assert!(matches!(w.step(&element(3, 3, 2)), RangeStep::Read(_)));
    match w.step(&element(2, 2, 1)) {
        RangeStep::Read(h) => assert_eq!(h, digest(1)),
        RangeStep::Done => panic!("one more"),
    }
    assert!(matches!(w.step(&element(1, 1, 0)), RangeStep::Done));
    let out: Vec<u64> = w.finish().unwrap().iter().map(|e| e.proposal.round).collect();
    assert_eq!(out, vec![2, 3]);
    let mut capped = RangeWalk::begin(1, 5_000, digest(4), 5_000).unwrap();
    for i in 0..MAX_RANGE_RESPONSE {
        let step = capped.step(&element(5_000 - i as u64, (i % 200) as u8, ((i + 1) % 200) as u8));
        assert_eq!(matches!(step, RangeStep::Done), i + 1 == MAX_RANGE_RESPONSE);
    }
    let sent = capped.finish().unwrap();
    assert_eq!(sent.len(), MAX_RANGE_RESPONSE);
    assert!(sent.windows(2).all(|w| w[0].proposal.round < w[1].proposal.round));
    let mut circle = RangeWalk::begin(1, 9, digest(4), 4).unwrap();
    assert!(matches!(circle.step(&element(4, 4, 4)), RangeStep::Done));
    let mut none = RangeWalk::begin(1, 1, digest(4), 4).unwrap();
    none.step(&element(0, 0, 9));
    assert!(none.finish().is_none());
}

#[test]
fn old_messages_are_given_up_per_peer() {
    let mut n = node(0);
    for t in 0..1024 {
        assert_eq!(n.push_cancel_handler(1, t), None);
    }
    assert_eq!(n.push_cancel_handler(1, 1024), Some(0));
    assert_eq!(n.push_cancel_handler(1, 1025), Some(1));
    assert_eq!(n.push_cancel_handler(2, 7), None);
}

#[test]
fn attestations_are_judged_and_handed_on() {
    let n: Hera<u8> = Hera::new(1, vec![0, 1, 2, 3], &vec![1, 2, 3], 1, digest(0), [3; 32], 0);
    let good = proposal(1, 0, 2).attestation.clone();
    assert_eq!(n.multi_attestation_sig_valid(&good, true), VALID);
    assert_eq!(n.multi_attestation_sig_valid(&good, false), SigAttestationValidity::Invalid);
    let stranger = proposal(1, 0, 0).attestation.clone();
    assert_eq!(n.multi_attestation_sig_valid(&stranger, true), SigAttestationValidity::Invalid);
    let emit = n.on_committed_attestation(&HeraCommittedAttestation { sig_round: 8, attestation: good });
    assert_eq!((emit.sig_round, emit.heads.len(), emit.heads[1].height), (8, 2, 4));
}
