use consensus::hera::attestation::{attestation_envelope, committed_attestation};
use consensus::hera::data_actor::{
    sample_latencies, CommitEmit, DataStep, Fetch, HeraDataActor, ProposePlan, DATA_REQ_RETRY_NS,
    MAX_LATENCY_SAMPLES,
};
use consensus::hera::data_block_db::{DataBlockDB, Lookup};
use consensus::hera::data_chain::{
    data_block_key, AdmitTypedResult, DataHeadSnapshot, MultiAuthorDataChainState,
};
use consensus::hera::presence::BlockPresence;
use consensus::hera::setup::data_block_signer;
use consensus::hera::types::{
    AttestationSig, DataBlock, DataBlockEnvelope, DataBlockSig, DataHead, HeraMsg, MultiAttestation,
    MultiAttestationEnvelope,
};
use consensus::types::{Batch, Transaction};
use fnv::FnvHashMap;
use std::sync::Arc;

#[derive(Debug, PartialEq)]
struct Tx(u64, Option<u128>);

impl Transaction for Tx {
    fn client_id(&self) -> usize {
        0
    }

    fn nonce(&self) -> u64 {
        self.0
    }

    fn hera_timestamp_ns(&self) -> Option<u128> {
        self.1
    }
}

fn digest(n: u8) -> [u8; 32] {
    let mut d = [0u8; 32];
    d[0] = n;
    d[31] = 7;
    d
}

fn genesis() -> Arc<DataBlock<Tx>> {
    Arc::new(DataBlock::genesis(digest(0)))
}

fn block(author: usize, height: u64, hash: u8, parent: u8, txs: usize) -> Arc<DataBlock<Tx>> {
    Arc::new(DataBlock {
        envelope: DataBlockEnvelope {
            epoch: 1,
            height,
            payload: (0..txs).map(|i| Arc::new(Tx(i as u64, None))).collect(),
            parent_hash: digest(parent),
        },
        sig: DataBlockSig { raw: Vec::new(), signer: author },
        hash: digest(hash),
    })
}

#[test]
fn genesis_resident_and_membership() {
    let g = genesis();
    let db = DataBlockDB::<Tx>::new(g.clone());
    assert!(db.contains(&g.hash));
    assert_eq!(db.epoch_of(&g.hash), Some(0));
}

#[test]
fn insert_then_get_and_contains() {
    let g = genesis();
    let mut db = DataBlockDB::<Tx>::new(g.clone());
    let b = block(0, 1, 11, 0, 4);
    let h = b.hash;
    db.insert(b, 0);
    assert!(db.contains(&h));
    assert_eq!(db.meta(&h).unwrap().height, 1);
    match db.get(&h) {
        Lookup::Found(got) => assert_eq!(got.hash, h),
        _ => panic!("present"),
    }
    match db.get(&g.hash) {
        Lookup::Found(gg) => assert!(gg.is_genesis()),
        _ => panic!("genesis present"),
    }
}

#[test]
fn missing_hash_returns_none() {
    let db = DataBlockDB::<Tx>::new(genesis());
    let phantom = block(0, 99, 99, 98, 4);
    assert!(!db.contains(&phantom.hash));
    assert!(matches!(db.get(&phantom.hash), Lookup::Unknown));
}

#[test]
fn the_cache_spills_what_is_not_emitted() {
    let mut db = DataBlockDB::<Tx>::with_byte_budget(genesis(), 400);
    assert!(db.insert(block(0, 1, 1, 0, 1), 1).is_empty());
    assert!(db.insert(block(0, 2, 2, 1, 1), 1).is_empty());
    assert!(db.insert(block(0, 3, 3, 2, 1), 1).is_empty());
    assert_eq!(db.resident_bytes(), 3 * 128);
    assert_eq!(db.cached_blocks(), 3);
    // The oldest block has been emitted: it goes for free.
    assert!(db.insert(block(0, 4, 4, 3, 1), 1).is_empty());
    assert_eq!(db.cached_blocks(), 3);
    assert!(db.cache_get(&digest(1)).is_none());
    assert!(matches!(db.get(&digest(1)), Lookup::Evicted));
    // The next one has not been: it is handed out.
    let spilled = db.insert(block(0, 5, 5, 4, 1), 1);
    assert_eq!(spilled.len(), 1);
    assert_eq!(spilled[0].hash, digest(2));
    assert!(db.contains(&digest(2)));
    // A block that is too large for the budget stays alone.
    let out = db.insert(block(0, 6, 6, 5, 40), 1);
    assert_eq!(out.iter().map(|b| b.envelope.height).collect::<Vec<_>>(), vec![3, 4, 5]);
    assert_eq!(db.cached_blocks(), 1);
    assert_eq!(db.resident_bytes(), 41 * 64);
    assert!(db.cache_get(&digest(0)).unwrap().is_genesis());
}

#[test]
fn wait_resolves_immediately_when_present() {
    let mut p = BlockPresence::new();
    let h = digest(1);
    p.insert(h, 0, 1);
    assert!(p.wait(h, 5));
}

#[test]
fn wait_unblocks_on_insert() {
    let mut p = BlockPresence::new();
    let h = digest(2);
    assert!(!p.wait(h, 8));
    assert!(!p.wait(h, 9));
    assert_eq!(p.insert(h, 0, 2), vec![8, 9]);
    assert!(p.insert(h, 0, 2).is_empty());
}

#[test]
fn gc_removes_committed_entries() {
    let mut p = BlockPresence::new();
    let h1 = digest(1);
    let h2 = digest(2);
    p.insert(h1, 0, 1);
    p.insert(h2, 0, 2);
    p.gc(0, 1);
    assert!(!p.is_present(&h1), "h1 should be GC'd");
    assert!(p.is_present(&h2), "h2 should remain");
    p.gc(1, 9);
    assert!(p.is_present(&h2));
}

#[test]
fn storage_keys_start_with_the_letter() {
    let key = data_block_key(&digest(3));
    assert_eq!(key.len(), 33);
    assert_eq!(key[0], b'D');
    assert_eq!(key[1..], digest(3));
}

#[test]
fn chains_extend_park_and_bridge() {
    let mut c = MultiAuthorDataChainState::new(&[0, 1], digest(0));
    assert_eq!(c.head_hash(1), Some(digest(0)));
    assert_eq!(c.head_hash(9), None);
    assert!(matches!(c.admit_metadata(digest(1), 1, digest(0), 0, 1), AdmitTypedResult::Extended));
    assert!(matches!(c.admit_metadata(digest(1), 1, digest(0), 0, 1), AdmitTypedResult::Duplicate));
    assert!(matches!(c.admit_metadata(digest(9), 1, digest(0), 7, 1), AdmitTypedResult::Invalid));
    // A chain that claims to start again one above its head is refused.
    assert!(matches!(c.admit_metadata(digest(8), 2, digest(0), 0, 1), AdmitTypedResult::Invalid));
    match c.admit_metadata(digest(3), 3, digest(2), 0, 4) {
        AdmitTypedResult::Parked(p) => assert_eq!(p, digest(2)),
        _ => panic!("parked"),
    }
    assert_eq!(c.head_height(0), 1);
    assert!(matches!(c.admit_metadata(digest(2), 2, digest(1), 0, 5), AdmitTypedResult::Extended));
    assert_eq!(c.head_height(0), 3);
    assert_eq!(c.head_hash(0), Some(digest(3)));
    let snap = c.load_head_snapshot(0).unwrap();
    assert_eq!((snap.epoch, snap.height, snap.hash), (5, 3, digest(3)));
    assert_eq!(c.head_height(1), 0);
    c.publish_head(0, 6);
    c.publish_head(9, 6);
    assert_eq!(c.load_head_snapshot(0).unwrap().epoch, 6);
    assert!(c.load_head_snapshot(9).is_none());
    assert_eq!(c.committed_height(0), 0);
    c.set_committed_height(0, 2);
    assert_eq!(c.committed_height(0), 2);
}

#[test]
fn the_oldest_parked_child_goes_when_the_map_is_full() {
    let mut c = MultiAuthorDataChainState::new(&[0], digest(0));
    let far = |n: u32| {
        let mut d = [1u8; 32];
        d[..4].copy_from_slice(&n.to_le_bytes());
        d
    };
    for n in 0..4096u32 {
        let r = c.admit_metadata(far(n + 1_000_000), 9, far(n), 0, 1);
        assert!(matches!(r, AdmitTypedResult::Parked(_)));
    }
    // One more lets the first one go: nothing waits for `far(0)` any more.
    let r = c.admit_metadata(far(7_000_000), 9, far(6_000_000), 0, 1);
    assert!(matches!(r, AdmitTypedResult::Parked(p) if p == far(6_000_000)));
    assert!(matches!(c.admit_metadata(far(0), 1, digest(0), 0, 1), AdmitTypedResult::Extended));
    assert_eq!(c.head_height(0), 1);
    // The others wait on, the one that came last before and the new one too.
    assert!(matches!(c.admit_metadata(far(4095), 2, far(0), 0, 1), AdmitTypedResult::Extended));
    assert_eq!((c.head_height(0), c.head_hash(0)), (9, Some(far(1_004_095))));
    assert!(matches!(c.admit_metadata(far(6_000_000), 10, far(1_004_095), 0, 1), AdmitTypedResult::Extended));
    assert_eq!(c.head_hash(0), Some(far(7_000_000)));
}

#[test]
fn a_range_is_walked_in_ascending_order() {
    let c = MultiAuthorDataChainState::new(&[0], digest(0));
    let mut store: FnvHashMap<[u8; 32], Arc<DataBlock<Tx>>> = FnvHashMap::default();
    for h in 1..=5u8 {
        store.insert(digest(h), block(0, h as u64, h, h - 1, 1));
    }
    let heights = |from: u64, to: u64| -> Vec<u64> {
        c.walk_range(&store, &digest(5), from, to).iter().map(|b| b.envelope.height).collect()
    };
    assert_eq!(heights(0, 5), vec![1, 2, 3, 4, 5]);
    assert_eq!(heights(2, 4), vec![3, 4]);
    assert_eq!(heights(4, 4), Vec::<u64>::new());
    store.remove(&digest(3));
    let gap: Vec<u64> =
        c.walk_range(&store, &digest(5), 0, 5).iter().map(|b| b.envelope.height).collect();
    assert_eq!(gap, vec![4, 5]);
}

fn actor(n: usize, lead: u64) -> HeraDataActor<Tx> {
    let ids: Vec<usize> = (0..n).collect();
    HeraDataActor::new(0, &ids, genesis(), n, (n - 1) / 3, lead)
}

fn batch(n: u64) -> Batch<Tx> {
    Batch { payload: (0..n).map(|i| Arc::new(Tx(i, None))).collect() }
}

fn propose(a: &mut HeraDataActor<Tx>, hash: u8) -> Arc<DataBlock<Tx>> {
    let envelope = match a.on_self_propose(batch(2)) {
        ProposePlan::Sign(e) => e,
        _ => panic!("an envelope"),
    };
    let out = a.on_self_signed(envelope, digest(hash), vec![1, 2]);
    assert_eq!(out.prime_round, out.block.envelope.height + 1);
    a.on_self_sent(&out.block);
    out.block
}

#[test]
fn own_blocks_wait_for_receipts() {
    let mut a = actor(4, 64);
    assert!(a.can_propose());
    assert!(matches!(a.on_self_propose(batch(0)), ProposePlan::Prime(1)));
    let b1 = propose(&mut a, 1);
    assert_eq!(b1.envelope.parent_hash, digest(0));
    assert_eq!((b1.envelope.epoch, b1.envelope.height, b1.sig.signer), (1, 1, 0));
    assert_eq!(a.my_height(), 1);
    assert_eq!(a.chains().head_height(0), 1);
    assert!(!a.can_propose());
    // Three of four nodes, this one among them, have to have the block.
    assert!(!a.on_receipt(1, true));
    assert!(!a.on_receipt(1, false));
    // Receipts for another block do not count.
    assert!(!a.on_receipt(0, true));
    assert!(!a.can_propose());
    assert!(a.on_receipt(1, true));
    assert!(a.can_propose());
    assert!(!a.on_receipt(1, true));
    assert!(a.can_propose());
    let b2 = propose(&mut a, 2);
    assert_eq!(b2.envelope.parent_hash, digest(1));
    assert_eq!(b2.envelope.height, 2);
}

#[test]
fn a_single_node_needs_no_receipt() {
    let mut a = actor(1, 64);
    propose(&mut a, 1);
    assert!(a.can_propose());
}

#[test]
fn the_chain_lead_is_capped() {
    let mut a = actor(1, 2);
    propose(&mut a, 1);
    propose(&mut a, 2);
    assert!(matches!(a.on_self_propose(batch(1)), ProposePlan::Drop(3)));
    let head = DataHead { author: 0, hash: digest(1), height: 1, epoch: 1 };
    let commit = CommitEmit { heads: vec![head], sig_round: 1 };
    assert_eq!(a.blocks_due(&commit).len(), 1);
    assert!(a.on_commit_emit(&commit, 1));
    assert!(matches!(a.on_self_propose(batch(1)), ProposePlan::Sign(_)));
}

#[test]
fn missing_parents_are_fetched_and_escalated() {
    let mut a = actor(4, 64);
    let late = block(2, 2, 22, 21, 1);
    match a.on_data_propose(&late, 3, 1_000) {
        Some(Fetch::Unicast { target, holder }) => assert_eq!((target, holder), (digest(21), 3)),
        _ => panic!("a fetch from the sender"),
    }
    assert!(a.request_data(digest(21), 1, 1_000 + DATA_REQ_RETRY_NS - 1).is_none());
    match a.request_data(digest(21), 1, 1_000 + DATA_REQ_RETRY_NS) {
        Some(Fetch::Broadcast { target }) => assert_eq!(target, digest(21)),
        _ => panic!("a broadcast"),
    }
    assert!(a.on_data_response(&block(2, 1, 21, 0, 1), 1, 2_000).is_none());
    assert_eq!(a.chains().head_height(2), 2);
    assert!(a.request_data(digest(21), 1, 9_000_000_000).is_none());
    // What is not above the head is not stored.
    assert!(a.on_data_response(&block(2, 1, 77, 0, 1), 1, 3_000).is_none());
    assert!(!a.holds(&digest(77)));
    assert!(a.holds(&digest(22)));
}

#[test]
fn requests_are_served_from_the_store() {
    let mut a = actor(4, 64);
    a.on_data_propose(&block(1, 1, 31, 0, 1), 1, 0);
    assert_eq!(a.on_data_request(&digest(31)).unwrap().hash, digest(31));
    assert!(a.on_data_request(&digest(0)).unwrap().is_genesis());
    assert!(a.on_data_request(&digest(99)).is_none());
    match a.dispatch_data(HeraMsg::DataRequest { target_hash: digest(31), source: 2 }, 0) {
        DataStep::Respond { to, block } => assert_eq!((to, block.hash), (2, digest(31))),
        _ => panic!("a response"),
    }
    let stray = HeraMsg::SigElementRequest { source: 1, target_hash: digest(1) };
    assert!(matches!(a.dispatch_data(stray, 0), DataStep::Nothing));
    let orphan = HeraMsg::DataPropose { block: block(1, 5, 35, 34, 1), sender: 2 };
    match a.dispatch_data(orphan, 0) {
        DataStep::Ask(Fetch::Unicast { target, holder }) => assert_eq!((target, holder), (digest(34), 2)),
        _ => panic!("a fetch"),
    }
}

#[test]
fn commits_emit_in_order_and_once() {
    let mut a = actor(4, 64);
    for h in 1..=3u8 {
        a.on_data_propose(&block(2, h as u64, 20 + h, if h == 1 { 0 } else { 19 + h }, 1), 2, 0);
        a.on_data_propose(&block(1, h as u64, 10 + h, if h == 1 { 0 } else { 9 + h }, (h as usize) % 2), 1, 0);
    }
    let heads = vec![
        DataHead { author: 2, hash: digest(22), height: 2, epoch: 1 },
        DataHead { author: 1, hash: digest(13), height: 3, epoch: 1 },
    ];
    let commit = CommitEmit { heads, sig_round: 9 };
    let out = a.blocks_due(&commit);
    assert!(a.on_commit_emit(&commit, out.len()));
    let names: Vec<(usize, u64)> = out.iter().map(|b| (b.sig.signer, b.envelope.height)).collect();
    // Author 1 first; its empty block at height 2 is not handed on.
    assert_eq!(names, vec![(1, 1), (1, 3), (2, 1), (2, 2)]);
    assert_eq!(a.chains().committed_height(1), 3);
    assert_eq!(a.chains().committed_height(2), 2);
    assert_eq!(a.max_committed_heads_len(), 2);
    assert!(a.blocks_due(&commit).is_empty());
    assert!(a.on_commit_emit(&commit, 0));
}

#[test]
fn a_closed_sink_ends_the_emission() {
    let mut a = actor(4, 64);
    a.on_data_propose(&block(1, 1, 11, 0, 1), 1, 0);
    a.on_data_propose(&block(1, 2, 12, 11, 1), 1, 0);
    let commit = CommitEmit { heads: vec![DataHead { author: 1, hash: digest(12), height: 2, epoch: 1 }], sig_round: 1 };
    assert_eq!(a.blocks_due(&commit).len(), 2);
    assert!(!a.on_commit_emit(&commit, 1));
    assert_eq!(a.chains().committed_height(1), 0);
    // Heads whose blocks were all taken are decided, those after them are not.
    a.on_data_propose(&block(2, 1, 21, 0, 1), 2, 0);
    let both = CommitEmit {
        heads: vec![
            DataHead { author: 2, hash: digest(21), height: 1, epoch: 1 },
            DataHead { author: 1, hash: digest(12), height: 2, epoch: 1 },
        ],
        sig_round: 2,
    };
    assert_eq!(a.blocks_due(&both).len(), 3);
    assert!(!a.on_commit_emit(&both, 2));
    assert_eq!((a.chains().committed_height(1), a.chains().committed_height(2)), (2, 0));
    assert_eq!(a.blocks_due(&both).len(), 1);
    assert!(a.on_commit_emit(&both, 1));
    assert_eq!(a.chains().committed_height(2), 1);
}

#[test]
fn decided_bodies_go_after_forty_commits() {
    let mut a = actor(4, 64);
    a.on_data_propose(&block(1, 1, 11, 0, 1), 1, 0);
    a.on_data_propose(&block(1, 2, 12, 11, 1), 1, 0);
    let commit = CommitEmit { heads: vec![DataHead { author: 1, hash: digest(11), height: 1, epoch: 1 }], sig_round: 1 };
    for _ in 0..39 {
        a.on_commit_emit(&commit, 1);
        assert!(a.holds(&digest(11)));
    }
    a.on_commit_emit(&commit, 1);
    assert!(!a.holds(&digest(11)));
    assert!(a.holds(&digest(12)));
}

#[test]
fn latencies_are_sampled_in_milliseconds() {
    let payload = vec![
        Arc::new(Tx(0, Some(1_000_000))),
        Arc::new(Tx(1, None)),
        Arc::new(Tx(2, Some(0))),
        Arc::new(Tx(3, Some(9_000_000_000))),
        Arc::new(Tx(4, Some(2_500_000))),
    ];
    let mut samples = vec![5];
    sample_latencies(&mut samples, &payload, 6_000_000);
    assert_eq!(samples, vec![5, 5, 3]);
    let mut full = vec![1; MAX_LATENCY_SAMPLES];
    sample_latencies(&mut full, &payload, 6_000_000);
    assert_eq!(full.len(), MAX_LATENCY_SAMPLES);
    assert_eq!(consensus::sorting::median(&vec![9, 1, 5, 7]), Some(7));
    assert_eq!(consensus::sorting::median(&vec![]), None);
}

fn attestation(heights: &[u64], signer: usize) -> Arc<MultiAttestation> {
    let heads = heights
        .iter()
        .enumerate()
        .map(|(i, h)| DataHead { author: i, hash: digest(*h as u8), height: *h, epoch: 1 })
        .collect();
    let envelope =
        MultiAttestationEnvelope { epoch_s: 1, round_s: 4, parent_hash_s: digest(0), heads, blames: vec![] };
    Arc::new(MultiAttestation::new(envelope, AttestationSig { raw: vec![], signer }))
}

#[test]
fn attestations_list_moved_heads_and_blame_the_rest() {
    let mut snaps: FnvHashMap<usize, DataHeadSnapshot> = FnvHashMap::default();
    snaps.insert(2, DataHeadSnapshot { epoch: 1, height: 5, hash: digest(5) });
    snaps.insert(0, DataHeadSnapshot { epoch: 1, height: 3, hash: digest(3) });
    snaps.insert(1, DataHeadSnapshot { epoch: 1, height: 4, hash: digest(4) });
    let mut prev: FnvHashMap<usize, u64> = FnvHashMap::default();
    prev.insert(1, 4);
    let e = attestation_envelope(&vec![2, 3, 0, 1], &snaps, &prev, 1, 6, digest(9));
    let heads: Vec<(usize, u64)> = e.heads.iter().map(|h| (h.author, h.height)).collect();
    assert_eq!(heads, vec![(0, 3), (2, 5)]);
    assert_eq!(e.blames, vec![1, 3]);
    assert_eq!((e.epoch_s, e.round_s, e.parent_hash_s), (1, 6, digest(9)));
}

#[test]
fn the_highest_attestation_counts() {
    assert!(committed_attestation(3, &vec![]).is_none());
    let payload = vec![attestation(&[1, 7], 0), attestation(&[7, 2], 1), attestation(&[6], 2)];
    let c = committed_attestation(3, &payload).unwrap();
    assert_eq!(c.sig_round, 3);
    assert_eq!(c.attestation.sig_s.signer, 1);
    assert_eq!(c.attestation.max_head_height(), 7);
    assert_eq!(attestation(&[], 0).max_head_height(), 0);
}

#[test]
fn blocks_of_unknown_authors_have_no_signer() {
    let mut system: FnvHashMap<usize, &str> = FnvHashMap::default();
    system.insert(1, "key");
    assert_eq!(data_block_signer(&system, &block(1, 1, 1, 0, 0)), Some(1));
    assert_eq!(data_block_signer(&system, &block(4, 1, 1, 0, 0)), None);
}
