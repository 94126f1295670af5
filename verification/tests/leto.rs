use consensus::leto::leader_context::{hash_to_seed, rotates, LeaderContext};
use consensus::leto::protocol::{
    is_proposal_valid, needed_certificates, BlameStep, Leto, LetoAction, LetoError, ProposalStep,
};
use consensus::leto::quorum_waiter::{QuorumWaiter, WaitStep};
use consensus::leto::round_context::{gc_cancel_handlers, Event, RoundContext};
use consensus::leto::synchronizer::{
    batch_response, element_response, HelperRequest, SyncHelper, SyncRoute, Synchronizer, SynchronizerMsg,
};
use consensus::leto::types::{Element, ProtocolMsg};
use consensus::types::{Batch, Block, Certificate, Proposal, Signature};
use std::sync::Arc;

fn digest(n: u8) -> [u8; 32] {
    [n; 32]
}

fn sig(signer: usize) -> Arc<Signature> {
    Arc::new(Signature { raw: vec![], signer })
}

fn cert(signers: &[usize]) -> Arc<Certificate> {
    let mut c = Certificate::empty();
    for s in signers {
        c.add_signature(sig(*s));
    }
    Arc::new(c)
}

fn prop(round: u64, parent: u8) -> Arc<Proposal> {
    Arc::new(Proposal::new(Block { batch_hash: digest(7), parent_hash: digest(parent) }, round, None))
}

fn batch() -> Arc<Batch<u8>> {
    Arc::new(Batch { payload: vec![Arc::new(1)] })
}

fn node(my_id: usize) -> Leto<u8> {
    Leto::new(my_id, vec![0, 1, 2, 3], &vec![0, 1, 2, 3], 1, digest(0), [5; 32])
}

#[test]
fn test_leader_ctx() {
    let (n, f) = (34usize, 10);

    let ids: Vec<usize> = (1..n).collect();
    let seed = hash_to_seed(&digest(42));
    let mut ctx = LeaderContext::new(ids.clone(), 10, seed);
    let mut ctx2 = LeaderContext::new(ids, 10, seed);
    ctx.advance_round();
    ctx2.advance_round();

    // Check consistency
    assert_eq!(ctx.leader(), ctx2.leader());
    assert_eq!(ctx.next_leader(), ctx2.next_leader());
    assert_eq!(ctx.elligible(), ctx2.elligible());
    assert_eq!(ctx.history(), ctx2.history());

    // Check correctness
    assert_eq!(ctx.history().len(), (n + f + 1) / 2);
    assert_eq!(ctx.elligible().len(), n - ((n + f + 1) / 2));
}

#[test]
fn committees_rotate_wherever_the_first_leader_stands() {
    assert!(!rotates(&vec![], 0));
    assert!(!rotates(&vec![1, 2, 1, 3], 1));
    assert!(!rotates(&vec![0, 1], 4));
    assert!(!rotates(&vec![0, 1, 2], 2));
    assert!(rotates(&vec![1, 0, 2], 2));
    for at in 0..4 {
        let mut ids = vec![1, 2, 3];
        ids.insert(at, 0);
        assert!(rotates(&ids, 1));
        let mut ctx = LeaderContext::new(ids.clone(), 1, [9; 32]);
        assert_eq!(ctx.leader(), 0);
        for _ in 0..50 {
            assert!(ids.contains(&ctx.next_leader()));
            ctx.advance_round();
        }
    }
    // All but one sit out: whoever comes back leads next.
    let mut line = LeaderContext::new(vec![1, 0, 2], 2, [9; 32]);
    for _ in 0..50 {
        line.advance_round();
    }
}

#[test]
fn consecutive_leaders_differ() {
    let mut ctx = LeaderContext::new(vec![0, 1, 2, 3, 4, 5, 6], 2, [4; 32]);
    let mut leaders = vec![ctx.leader()];
    for _ in 0..60 {
        ctx.advance_round();
        leaders.push(ctx.leader());
    }
    for w in leaders.windows(6) {
        let mut w = w.to_vec();
        w.sort();
        w.dedup();
        assert_eq!(w.len(), 6);
    }
}

#[test]
fn leaders_sit_out_after_their_turn() {
    let mut ctx = LeaderContext::new(vec![0, 1, 2, 3, 4, 5, 6], 2, [1; 32]);
    assert_eq!(ctx.leader(), 0);
    assert_eq!(ctx.history(), vec![0, 2, 3, 4, 5]);
    let mut copy = ctx.duplicate();
    for _ in 0..40 {
        let next = ctx.next_leader();
        ctx.advance_round();
        assert_eq!(ctx.leader(), next);
        assert_eq!(ctx.history()[0], next);
        assert!(!ctx.elligible().contains(&next));
        assert!(ctx.elligible().contains(&ctx.next_leader()));
        assert_eq!((ctx.history().len(), ctx.elligible().len()), (5, 2));
    }
    copy.advance_by(40);
    assert_eq!(copy.leader(), ctx.leader());
    assert_eq!(copy.history(), ctx.history());
}

#[test]
fn handlers_are_kept_for_two_rounds_per_node() {
    assert!(gc_cancel_handlers(0, 8, 4));
    assert!(!gc_cancel_handlers(0, 9, 4));
    assert!(!gc_cancel_handlers(1, 9, 4));
    assert!(gc_cancel_handlers(2, 9, 4));
}

#[test]
fn rounds_order_their_messages() {
    let mut c: RoundContext<u8> = RoundContext::new(4);
    c.sync(ProtocolMsg::Blame { round: 2, auth: sig(1) });
    c.sync(ProtocolMsg::BlameQC { round: 2, qc: cert(&[1]) });
    c.sync(ProtocolMsg::Propose { proposal: prop(2, 0), auth: sig(0), batch: batch(), sender: 0 });
    c.sync(ProtocolMsg::Blame { round: 0, auth: sig(1) });
    assert!(c.next_event(false).is_none());
    assert!(matches!(c.next_event(true), Some(Event::Timeout)));
    c.disable_timer();
    assert!(c.next_event(true).is_none());
    c.sync(ProtocolMsg::Blame { round: 1, auth: sig(2) });
    c.add_handler(1);
    c.add_handlers(vec![2, 3]);
    c.advance_round();
    assert_eq!(c.round(), 2);
    assert!(matches!(c.next_event(true), Some(Event::Msg(ProtocolMsg::Propose { .. }))));
    assert!(matches!(c.next_event(true), Some(Event::Msg(ProtocolMsg::BlameQC { .. }))));
    assert!(matches!(c.next_event(true), Some(Event::Msg(ProtocolMsg::Blame { round: 2, .. }))));
    assert!(matches!(c.next_event(true), Some(Event::Timeout)));
    c.add_blame(sig(1));
    c.add_blame(sig(1));
    c.add_blame(sig(3));
    assert_eq!(c.blame_count(), 2);
    assert_eq!(c.take_certificate().unique_len(), 2);
    assert!(c.got_qc());
    c.advance_round();
    assert!(!c.got_qc());
    c.sync(ProtocolMsg::Blame { round: 4, auth: sig(1) });
    assert!(c.propose_msgs().is_empty());
    assert!(c.blame_msgs().is_empty());
    assert!(c.blame_qc_msgs().is_empty());
}

#[test]
fn proposals_are_handled_in_their_round() {
    let mut n = node(2);
    let old = n.handle_proposal(&prop(0, 0), &sig(0), &batch(), 0, digest(7), true, true).unwrap();
    assert!(matches!(old, ProposalStep::Old));
    let early = n.handle_proposal(&prop(2, 1), &sig(0), &batch(), 0, digest(7), true, true).unwrap();
    assert!(matches!(early, ProposalStep::Queued));
    let forged = n.handle_proposal(&prop(1, 0), &sig(0), &batch(), 0, digest(7), true, false);
    assert!(matches!(forged, Err(LetoError::BadSignature)));
    let gap = n.handle_proposal(&prop(1, 0), &sig(0), &batch(), 0, digest(7), false, true);
    assert!(matches!(gap, Err(LetoError::InvalidChain)));
    assert_eq!((n.round(), n.highest()), (1, (digest(0), 0)));
    assert_eq!(n.proposal_signer(), Some(0));
    match n.handle_proposal(&prop(1, 0), &sig(0), &batch(), 0, digest(7), true, true).unwrap() {
        ProposalStep::Correct { relay: Some(LetoAction::Send { to, msg: ProtocolMsg::Relay { batch_hash, sender, .. } }) } => {
            assert_ne!(to, 2);
            assert_eq!((batch_hash, sender), (digest(7), 2));
        }
        ProposalStep::Correct { relay: None } => {}
        _ => panic!("correct"),
    }
    let next = n.on_correct_proposal(digest(1), 1);
    assert_eq!(next.round, 2);
    assert_eq!(next.leader, n.leader());
    assert_eq!(n.highest(), (digest(1), 1));
    assert!(matches!(n.next_event(false), Some(Event::Msg(ProtocolMsg::Propose { .. }))));
    let mut stranger: Leto<u8> = Leto::new(2, vec![0, 1, 2, 3], &vec![2], 1, digest(0), [5; 32]);
    let unknown = stranger.handle_proposal(&prop(1, 0), &sig(0), &batch(), 0, digest(7), true, true);
    assert!(matches!(unknown, Err(LetoError::UnknownSigner(0))));
}

#[test]
fn proposals_carry_certificates_of_skipped_rounds() {
    let mut n = node(0);
    let direct = n.handle_new_batch(digest(9));
    assert!(direct.qc.is_none());
    assert_eq!((direct.round, direct.block.batch_hash, direct.block.parent_hash), (1, digest(9), digest(0)));
    n.on_blame_qc(1, &cert(&[0, 1, 2]), true).unwrap();
    n.on_blame_qc(2, &cert(&[1, 2, 3]), true).unwrap();
    let p = n.handle_new_batch(digest(9));
    assert_eq!(p.round, 3);
    let qc = p.qc.as_ref().unwrap();
    assert_eq!(qc.len(), 2);
    // The earliest round first.
    assert_eq!(qc[0].sigs[0].signer, 0);
    assert_eq!(qc[1].sigs[0].signer, 1);
}

#[test]
fn a_proposal_over_skipped_rounds_is_accepted() {
    let mut leader = node(0);
    let mut peer = node(0);
    for n in [&mut leader, &mut peer] {
        n.on_blame_qc(1, &cert(&[0, 1, 2]), true).unwrap();
        n.on_blame_qc(2, &cert(&[1, 2, 3]), true).unwrap();
    }
    let p = Arc::new(leader.handle_new_batch(digest(9)));
    assert_eq!(needed_certificates(p.round, 0, 1), 2);
    // The first certificate is held against the first round that was skipped.
    let rounds = [(1, [0, 1, 2]), (2, [1, 2, 3])];
    let verified: Vec<bool> = p
        .qc
        .as_ref()
        .unwrap()
        .iter()
        .zip(rounds)
        .map(|(c, (_, signers))| c.sigs.iter().map(|s| s.signer).eq(signers))
        .collect();
    assert_eq!(verified, vec![true, true]);
    let chain_ok = is_proposal_valid(&p, 0, &verified, 4, 1);
    assert!(chain_ok);
    let step = peer.handle_proposal(&p, &sig(0), &batch(), 0, digest(7), chain_ok, true).unwrap();
    assert!(matches!(step, ProposalStep::Correct { .. }));
    assert_eq!(peer.on_correct_proposal(digest(1), 3).round, 4);
}

#[test]
fn skipped_rounds_need_certificates() {
    let direct = Proposal::new(Block { batch_hash: digest(1), parent_hash: digest(2) }, 5, None);
    assert!(is_proposal_valid(&direct, 4, &vec![], 4, 1));
    let missing = vec![true, true, true];
    assert!(!is_proposal_valid(&direct, 3, &missing, 4, 1));
    let with = |certs: Vec<Arc<Certificate>>| {
        Proposal::new(Block { batch_hash: digest(1), parent_hash: digest(2) }, 5, Some(certs))
    };
    assert!(is_proposal_valid(&with(vec![cert(&[0, 1, 2])]), 3, &vec![true], 4, 1));
    assert!(!is_proposal_valid(&with(vec![cert(&[0, 1, 2])]), 3, &vec![false], 4, 1));
    // Two signatures of one node count once.
    assert!(!is_proposal_valid(&with(vec![cert(&[0, 1, 1])]), 3, &vec![true], 4, 1));
    // More than two rounds cannot be skipped with one fault.
    let many = with(vec![cert(&[0, 1, 2]), cert(&[0, 1, 2]), cert(&[0, 1, 2])]);
    assert!(is_proposal_valid(&many, 2, &vec![true, true, true], 4, 1));
    assert!(!is_proposal_valid(&many, 1, &vec![true, true, true], 4, 1));
    // A certificate is missing.
    assert!(!is_proposal_valid(&with(vec![cert(&[0, 1, 2])]), 2, &vec![true], 4, 1));
    assert_eq!(needed_certificates(5, 4, 1), 0);
    assert_eq!(needed_certificates(5, 2, 1), 2);
    assert_eq!(needed_certificates(50, 2, 1), 3);
    assert_eq!(needed_certificates(2, 5, 1), 3);
}

#[test]
fn blames_end_a_round_at_the_quorum() {
    let mut n = node(3);
    assert_eq!(n.on_round_timeout(), 1);
    match &n.blame(1, &sig(3))[..] {
        [LetoAction::Broadcast(ProtocolMsg::Blame { round: 1, .. }), LetoAction::Loopback(_)] => {}
        _ => panic!("a blame"),
    }
    assert!(matches!(n.handle_blame(1, &sig(8), true), Err(LetoError::UnknownBlamer(8))));
    assert!(matches!(n.handle_blame(1, &sig(1), false), Err(LetoError::BadSignature)));
    assert!(matches!(n.handle_blame(0, &sig(1), true), Ok(BlameStep::Nothing)));
    assert!(matches!(n.handle_blame(1, &sig(0), true), Ok(BlameStep::Nothing)));
    assert!(matches!(n.handle_blame(1, &sig(0), true), Ok(BlameStep::Nothing)));
    assert!(matches!(n.handle_blame(1, &sig(1), true), Ok(BlameStep::Nothing)));
    match n.handle_blame(1, &sig(2), true).unwrap() {
        BlameStep::Advanced { broadcast: LetoAction::Broadcast(ProtocolMsg::BlameQC { round, qc }), round: next } => {
            assert_eq!((round, qc.unique_len(), next.round), (1, 3, 2));
        }
        _ => panic!("the end of the round"),
    }
    assert!(matches!(n.on_blame_qc(2, &cert(&[0]), false), Err(LetoError::BadSignature)));
    // A certificate of a round that is over has no effect.
    assert!(matches!(n.on_blame_qc(1, &cert(&[0, 1, 2]), true), Ok(BlameStep::Nothing)));
    assert_eq!(n.round(), 2);
    assert_eq!(n.round(), 2);
}

#[test]
fn acks_are_counted_up_to_the_threshold() {
    let mut w = QuorumWaiter::new(2, 3);
    assert_eq!(w.status(), WaitStep::Waiting);
    assert_eq!(w.wait(false), WaitStep::Waiting);
    assert_eq!(w.wait(true), WaitStep::Waiting);
    assert_eq!(w.wait(true), WaitStep::Enough);
    let mut few = QuorumWaiter::new(2, 2);
    assert_eq!(few.wait(true), WaitStep::Waiting);
    assert_eq!(few.wait(false), WaitStep::TooFew(1));
    assert_eq!(QuorumWaiter::new(0, 0).status(), WaitStep::Enough);
}

#[test]
fn messages_are_routed_by_what_they_lack() {
    let propose = || ProtocolMsg::Propose { proposal: prop(1, 4), auth: sig(0), batch: batch(), sender: 0 };
    assert!(matches!(Synchronizer::sync_msg(propose(), None, true), SyncRoute::StoreAndDeliver(ProtocolMsg::Propose { .. })));
    match Synchronizer::sync_msg(propose(), None, false) {
        SyncRoute::Lacks(SynchronizerMsg::DeliverParentOnly { parent_hash, sender, .. }) => {
            assert_eq!((parent_hash, sender), (digest(4), 0))
        }
        _ => panic!("its parent"),
    }
    let relay = || ProtocolMsg::Relay { proposal: prop(1, 4), auth: sig(0), batch_hash: digest(7), sender: 2 };
    assert!(matches!(Synchronizer::sync_msg(relay(), Some(batch()), true), SyncRoute::Deliver(ProtocolMsg::Propose { sender: 2, .. })));
    assert!(matches!(
        Synchronizer::sync_msg(relay(), Some(batch()), false),
        SyncRoute::Lacks(SynchronizerMsg::DeliverParentOnly { .. })
    ));
    assert!(matches!(
        Synchronizer::sync_msg(relay(), None, true),
        SyncRoute::Lacks(SynchronizerMsg::DeliverBatchOnly { .. })
    ));
    assert!(matches!(
        Synchronizer::sync_msg(relay(), None, false),
        SyncRoute::Lacks(SynchronizerMsg::DeliverParentAndBatch { .. })
    ));
    let ask: ProtocolMsg<u8> = ProtocolMsg::BatchRequest { source: 1, request_hash: digest(3) };
    assert!(matches!(Synchronizer::sync_msg(ask, None, false), SyncRoute::Help(HelperRequest::BatchRequest { source: 1, .. })));
    let ask: ProtocolMsg<u8> = ProtocolMsg::ElementRequest { source: 1, request_hash: digest(3) };
    assert!(matches!(Synchronizer::sync_msg(ask, None, false), SyncRoute::Help(HelperRequest::ElementRequest { .. })));
    let got = ProtocolMsg::BatchResponse { request_hash: digest(3), batch: batch() };
    assert!(matches!(Synchronizer::sync_msg(got, None, false), SyncRoute::StoreBatch(_)));
    let element = Arc::new(Element { proposal: prop(1, 4), auth: sig(0), batch: batch(), hash: digest(9) });
    let got = ProtocolMsg::ElementResponse { request_hash: digest(9), element: element.clone() };
    assert!(matches!(Synchronizer::sync_msg(got, None, false), SyncRoute::StoreElement(_)));
    let blame: ProtocolMsg<u8> = ProtocolMsg::Blame { round: 1, auth: sig(1) };
    assert!(matches!(Synchronizer::sync_msg(blame, None, false), SyncRoute::Deliver(ProtocolMsg::Blame { .. })));
    assert!(matches!(batch_response(2, digest(3), Some(batch())), Some((2, ProtocolMsg::BatchResponse { .. }))));
    assert!(batch_response::<u8>(2, digest(3), None).is_none());
    assert!(matches!(element_response(2, digest(9), Some(element)), Some((2, ProtocolMsg::ElementResponse { .. }))));
}

#[test]
fn what_is_lacking_is_asked_for_once_a_round() {
    let mut h = SyncHelper::new(3);
    let lack = || SynchronizerMsg::<u8>::DeliverBatchOnly {
        batch_hash: digest(7),
        sender: 1,
        proposal: prop(1, 4),
        auth: sig(0),
    };
    let step = h.run(lack());
    match step.request {
        Some((1, ProtocolMsg::BatchRequest { source: 3, request_hash })) => assert_eq!(request_hash, digest(7)),
        _ => panic!("a request"),
    }
    let wait = step.wait.unwrap();
    assert!(wait.parent.is_none());
    assert!(matches!(wait.deliver(batch()), ProtocolMsg::Propose { sender: 1, .. }));
    let again = h.run(lack());
    assert!(again.request.is_none() && again.wait.is_none());
    // Lacking both, the proposal waits although the batch is under way.
    let both = h.run(SynchronizerMsg::<u8>::DeliverParentAndBatch {
        batch_hash: digest(7),
        sender: 1,
        proposal: prop(1, 4),
        auth: sig(0),
    });
    assert!(both.request.is_none());
    assert_eq!(both.wait.unwrap().parent, Some(digest(4)));
    h.run(SynchronizerMsg::<u8>::AdvanceRound(2));
    h.run(SynchronizerMsg::<u8>::AdvanceRound(1));
    assert!(h.run(lack()).request.is_some());
    let parent = h.run(SynchronizerMsg::DeliverParentOnly {
        parent_hash: digest(4),
        sender: 1,
        proposal: prop(1, 4),
        auth: sig(0),
        batch: batch(),
    });
    assert!(matches!(parent.request, Some((1, ProtocolMsg::ElementRequest { .. }))));
}

#[test]
fn relays_wait_for_their_batch() {
    let mut w = Synchronizer::new();
    assert!(w.on_unknown_batch(&prop(1, 4), &sig(0), digest(7), 1));
    assert!(!w.on_unknown_batch(&prop(1, 4), &sig(0), digest(7), 1));
    assert!(w.on_unknown_batch(&prop(1, 4), &sig(0), digest(7), 2));
    let out: Vec<ProtocolMsg<u8>> = w.on_batch_ready(&digest(7));
    assert_eq!(out.len(), 2);
    assert!(out.iter().all(|m| matches!(m, ProtocolMsg::Relay { .. })));
    assert!(w.on_batch_ready::<u8>(&digest(7)).is_empty());
    w.on_unknown_batch(&prop(1, 4), &sig(0), digest(7), 1);
    w.advance_round();
    assert!(w.on_batch_ready::<u8>(&digest(7)).is_empty());
    assert!(w.on_batch_response(&digest(7), &digest(7)));
    assert!(!w.on_batch_response(&digest(7), &digest(8)));
    assert!(w.request_batch(digest(1)));
    assert!(!w.request_batch(digest(1)));
}
