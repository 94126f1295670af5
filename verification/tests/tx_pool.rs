use consensus::tx_pool::Txpool;
use consensus::types::{Batch, Transaction};
use std::sync::Arc;

#[derive(Debug, Clone, PartialEq)]
struct TestTx {
    client: usize,
    nonce: u64,
    payload: u8,
}

impl TestTx {
    fn new(client: usize, nonce: u64) -> Self {
        Self { client, nonce, payload: 0 }
    }
}

impl Transaction for TestTx {
    fn client_id(&self) -> usize {
        self.client
    }

    fn nonce(&self) -> u64 {
        self.nonce
    }

    fn hera_timestamp_ns(&self) -> Option<u128> {
        None
    }
}

fn pool() -> Txpool<TestTx> {
    Txpool::new(1024 * 1024)
}

fn batch(txs: Vec<TestTx>) -> Batch<TestTx> {
    Batch { payload: txs.into_iter().map(Arc::new).collect() }
}

fn propose_to(p: &mut Txpool<TestTx>, b: &Batch<TestTx>, round: u64) {
    let sizes = vec![17; b.payload.len()];
    p.admit_proposal(b, &sizes, round);
}

fn is_mineable(p: &Txpool<TestTx>, client: usize, nonce: u64) -> bool {
    p.mineable_tx(client, nonce).is_some()
}

#[test]
fn trace1_common_case() {
    let mut p = pool();
    let tx = TestTx::new(1, 5);
    p.add_tx(tx.clone(), 10);
    assert!(is_mineable(&p, 1, 5));
    assert_eq!(p.mineable_bytes(), 10);

    propose_to(&mut p, &batch(vec![tx.clone()]), 1);
    assert!(!is_mineable(&p, 1, 5));
    assert!(p.is_inflight(1, 5));
    assert_eq!(p.inflight_in_round(1), Some(1));

    p.commit(&batch(vec![tx.clone()]), 1);
    assert!(!p.is_inflight(1, 5));
    assert_eq!(p.committed_nonce(1), Some(5));
}

#[test]
fn trace2_proposal_before_client() {
    let mut p = pool();
    let tx = TestTx::new(1, 5);

    propose_to(&mut p, &batch(vec![tx.clone()]), 1);
    assert!(!is_mineable(&p, 1, 5));
    assert!(p.is_inflight(1, 5));

    p.add_tx(tx.clone(), 10);
    assert!(!is_mineable(&p, 1, 5));
    assert!(p.is_inflight(1, 5));
    assert_eq!(p.mineable_bytes(), 0);
}

#[test]
fn trace3_late_client_after_commit() {
    let mut p = pool();
    let tx = TestTx::new(1, 5);

    propose_to(&mut p, &batch(vec![tx.clone()]), 1);
    p.commit(&batch(vec![tx.clone()]), 1);
    assert_eq!(p.committed_nonce(1), Some(5));

    p.add_tx(tx.clone(), 10);
    assert!(!is_mineable(&p, 1, 5));
    assert_eq!(p.mineable_bytes(), 0);
}

#[test]
fn trace4_chain_switch_rollback() {
    let mut p = pool();
    let tx = TestTx::new(1, 5);
    p.add_tx(tx.clone(), 10);

    let _batch = p.make_batch(1);
    assert!(p.is_inflight(1, 5));
    assert!(!is_mineable(&p, 1, 5));

    p.rollback(&[1]);
    assert!(is_mineable(&p, 1, 5));
    assert!(!p.is_inflight(1, 5));
    assert_eq!(p.mineable_bytes(), 10);
}

#[test]
fn trace5_different_proposal_at_same_round() {
    let mut p = pool();
    let tx5 = TestTx::new(1, 5);
    let tx7 = TestTx::new(1, 7);

    p.add_tx(tx5.clone(), 10);
    propose_to(&mut p, &batch(vec![tx5.clone()]), 2);
    assert!(p.is_inflight(1, 5));

    p.commit(&batch(vec![tx7.clone()]), 2);
    assert_eq!(p.committed_nonce(1), Some(7));
    assert!(!is_mineable(&p, 1, 5));

    p.rollback(&[2]);
    assert!(!p.is_inflight(1, 5));
    assert!(!is_mineable(&p, 1, 5));
}

#[test]
fn trace6_byzantine_replay() {
    let mut p = pool();
    let tx10 = TestTx::new(1, 10);
    p.add_tx(tx10.clone(), 10);
    propose_to(&mut p, &batch(vec![tx10.clone()]), 1);
    p.commit(&batch(vec![tx10.clone()]), 1);
    assert_eq!(p.committed_nonce(1), Some(10));

    let tx3 = TestTx::new(1, 3);
    p.add_tx(tx3, 10);
    assert!(!is_mineable(&p, 1, 3));
    assert_eq!(p.mineable_bytes(), 0);
}

#[test]
fn trace8_proposer_loopback() {
    let mut p = pool();
    let tx = TestTx::new(1, 5);
    p.add_tx(tx.clone(), 10);

    let b = p.make_batch(1);
    assert_eq!(b.payload.len(), 1);
    assert!(p.is_inflight(1, 5));

    propose_to(&mut p, &b, 1);
    assert!(p.is_inflight(1, 5));
    assert!(!is_mineable(&p, 1, 5));
    assert_eq!(p.inflight_in_round(1), Some(1));
}

#[test]
fn trace9_equivocation_last_write_wins() {
    let mut p = pool();
    let tx_a = TestTx { client: 1, nonce: 5, payload: 0xAA };
    let tx_b = TestTx { client: 1, nonce: 5, payload: 0xBB };

    p.add_tx(tx_a.clone(), 10);
    assert_eq!(p.mineable_bytes(), 10);

    p.add_tx(tx_b.clone(), 10);
    assert_eq!(p.mineable_len(), 1);
    assert_eq!(p.mineable_bytes(), 10);

    let stored = p.mineable_tx(1, 5).unwrap();
    assert_eq!(stored.payload, 0xBB);
}

#[test]
fn gc_sweeps_stale_mineable() {
    let mut p = pool();
    for n in 1u64..=3 {
        p.add_tx(TestTx::new(1, n), 10);
    }
    assert_eq!(p.mineable_len(), 3);
    assert_eq!(p.mineable_bytes(), 30);

    p.commit(&batch(vec![TestTx::new(1, 3)]), 1);
    assert!(!is_mineable(&p, 1, 1));
    assert!(!is_mineable(&p, 1, 2));
    assert!(!is_mineable(&p, 1, 3));
    assert_eq!(p.mineable_bytes(), 0);
    assert_eq!(p.committed_nonce(1), Some(3));
}

#[test]
fn rollback_subsumed_orphan_dropped() {
    let mut p = pool();
    let tx5 = TestTx::new(1, 5);
    let tx7 = TestTx::new(1, 7);

    p.add_tx(tx5.clone(), 10);
    p.add_tx(tx7.clone(), 10);
    propose_to(&mut p, &batch(vec![tx5.clone(), tx7.clone()]), 1);

    p.commit(&batch(vec![tx7.clone()]), 1);
    assert_eq!(p.committed_nonce(1), Some(7));

    let mut p2 = pool();
    p2.add_tx(tx5.clone(), 10);
    propose_to(&mut p2, &batch(vec![tx5.clone()]), 2);
    p2.commit(&batch(vec![tx7.clone()]), 3);
    p2.rollback(&[2]);
    assert!(!is_mineable(&p2, 1, 5));
    assert!(!p2.is_inflight(1, 5));
}

#[test]
fn batches_take_the_smallest_names_up_to_the_size() {
    let mut p: Txpool<TestTx> = Txpool::new(25);
    p.add_tx(TestTx::new(2, 1), 10);
    p.add_tx(TestTx::new(1, 9), 10);
    p.add_tx(TestTx::new(1, 2), 10);
    p.add_tx(TestTx::new(3, 1), 10);
    assert!(p.ready());
    let b = p.make_batch(4);
    let names: Vec<(usize, u64)> = b.payload.iter().map(|t| (t.client, t.nonce)).collect();
    // A third one would not fit.
    assert_eq!(names, vec![(1, 2), (1, 9)]);
    assert_eq!(p.mineable_bytes(), 20);
    assert!(!p.ready());
    assert_eq!(p.inflight_in_round(4), Some(2));
    assert!(p.key_sets_disjoint());
    p.rollback(&[4]);
    assert_eq!(p.mineable_bytes(), 40);
    assert_eq!(p.mineable_len(), 4);
    assert_eq!(p.inflight_in_round(4), None);
}

#[test]
fn batches_do_not_exceed_their_size() {
    let mut p: Txpool<TestTx> = Txpool::new(15);
    p.add_tx(TestTx::new(1, 1), 10);
    p.add_tx(TestTx::new(1, 2), 10);
    let b = p.make_batch(1);
    assert_eq!(b.payload.len(), 1);
    assert_eq!(*b.payload[0], TestTx::new(1, 1));
    assert_eq!(p.mineable_bytes(), 10);
    // Exactly the size fits.
    p.add_tx(TestTx::new(1, 3), 5);
    assert_eq!(p.make_batch(2).payload.len(), 2);
    // One that is larger than a batch goes alone, whatever comes after it.
    p.add_tx(TestTx::new(1, 4), 16);
    p.add_tx(TestTx::new(1, 5), 1);
    let large = p.make_batch(3);
    assert_eq!(large.payload.len(), 1);
    assert_eq!(large.payload[0].nonce, 4);
    assert_eq!(p.make_batch(4).payload.len(), 1);
    assert!(p.make_batch(5).payload.is_empty());
}

#[test]
fn a_batch_of_bytes_is_ready() {
    let mut p: Txpool<TestTx> = Txpool::new(10);
    p.add_tx(TestTx::new(1, 4), 9);
    assert!(!p.ready());
    p.add_tx(TestTx::new(1, 5), 1);
    assert!(p.ready());
}

#[test]
fn stragglers_are_dropped_when_their_round_is_proposed_again() {
    let mut p = pool();
    let b5 = batch(vec![TestTx::new(1, 5)]);
    propose_to(&mut p, &b5, 2);
    propose_to(&mut p, &batch(vec![TestTx::new(2, 5)]), 2);
    propose_to(&mut p, &batch(vec![TestTx::new(1, 6)]), 3);
    p.commit(&batch(vec![TestTx::new(1, 7)]), 2);
    assert!(p.is_inflight(1, 5));
    propose_to(&mut p, &b5, 2);
    assert!(!p.is_inflight(1, 5));
    assert!(!is_mineable(&p, 1, 5));
    assert_eq!(p.inflight_in_round(2), Some(1));
    // What is not stale stays, and so do the stragglers of other rounds.
    assert!(p.is_inflight(2, 5));
    assert!(p.is_inflight(1, 6));
    propose_to(&mut p, &batch(vec![]), 3);
    assert!(!p.is_inflight(1, 6));
    // What was in flight elsewhere keeps its round.
    propose_to(&mut p, &batch(vec![TestTx::new(2, 5)]), 9);
    assert_eq!(p.inflight_in_round(2), Some(1));
    assert_eq!(p.inflight_in_round(9), Some(0));
}

#[test]
fn unknown_transactions_count_with_their_encoded_size() {
    let mut p = pool();
    propose_to(&mut p, &batch(vec![TestTx::new(4, 2)]), 3);
    p.rollback(&[3]);
    assert_eq!(p.mineable_bytes(), 17);
    assert!(is_mineable(&p, 4, 2));
}

#[test]
fn an_empty_proposal_opens_its_round_and_a_commit_closes_it() {
    let mut p = pool();
    propose_to(&mut p, &batch(vec![]), 7);
    assert_eq!(p.inflight_in_round(7), Some(0));
    p.commit(&batch(vec![]), 7);
    assert_eq!(p.inflight_in_round(7), None);
}

#[test]
fn room_is_what_the_counters_can_take() {
    let mut p = pool();
    p.add_tx(TestTx::new(1, 1), 10);
    assert!(p.has_room(usize::MAX - 10));
    assert!(!p.has_room(usize::MAX - 9));
}
