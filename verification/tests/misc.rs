use consensus::client::settings::{Bench, ClientMode, Settings};
use consensus::client::stresser::{
    fault_threshold, make_burst, median_us, transaction_rate, BurstTarget, MockTx, Stressor,
};
use consensus::confirmations::ConfirmationRouter;
use consensus::gc_depth::{gc_depth_rounds, init_gc_depth_rounds};
use consensus::hera::net::{
    count_shed, decode_ping, encode_ping, is_active_handshake, is_passive_handshake, on_frame_header, on_ping,
    peer_plans, sample_delay, FrameStep, HeraNet, PongStep, SendOutcome, ACTIVE_HANDSHAKE, MAX_SIZE, PASSIVE_HANDSHAKE,
};
use consensus::hera::setup::{
    broadcast_peers, emit_window_secs, generator_pauses, max_chain_lead, round_timer_ms, txs_per_burst,
};
use consensus::id::{Id, ParseIdError};
use consensus::keys::{Algorithm, KeyConfig};
use consensus::round::Round;
use consensus::rr_batcher::{BatcherConsensusMsg, Parameters, RRBatcher};
use consensus::settings::{BenchConfig, Config, Party, ENV};
use consensus::sorting::sorted_ids;
use consensus::types::{Batch, Transaction};
use fnv::FnvHashMap;
use std::sync::Arc;
use std::time::Duration;

#[test]
fn ids_are_written_in_digits() {
    for n in [0, 7, 10, 99, 100, 12_345_678_909, usize::MAX] {
        assert_eq!(Id(n).to_text(), n.to_string());
        assert_eq!(Id::try_from(Id(n).to_text()), Ok(Id(n)));
        assert_eq!(Round(n).to_text(), n.to_string());
    }
}

#[test]
fn ids_are_parsed_like_numbers() {
    assert_eq!(Id::try_from("17"), Ok(Id(17)));
    assert_eq!(Id::try_from("+17"), Ok(Id(17)));
    assert_eq!(Id::try_from("007".to_string()), Ok(Id(7)));
    assert_eq!(Id::try_from(""), Err(ParseIdError::Empty));
    assert_eq!(Id::try_from("+"), Err(ParseIdError::InvalidDigit));
    assert_eq!(Id::try_from("-1"), Err(ParseIdError::InvalidDigit));
    assert_eq!(Id::try_from("1x"), Err(ParseIdError::InvalidDigit));
    assert_eq!(Id::try_from(" 1"), Err(ParseIdError::InvalidDigit));
    let max = usize::MAX.to_string();
    assert_eq!(Id::try_from(max.as_str()), Ok(Id(usize::MAX)));
    assert_eq!(Id::try_from(format!("{}0", max).as_str()), Err(ParseIdError::PosOverflow));
    for text in ["", "+", "-", "0", "12", "+5", "5+", "99999999999999999999999", "99999999999999999999999x", "x9"] {
        assert_eq!(Id::try_from(text).ok().map(|i| i.0), text.parse::<usize>().ok());
    }
    assert_eq!(Id::start(), Id::from(0));
    assert!(Id(2) < Id(10));
}

#[test]
fn rounds_add_up() {
    assert_eq!(Round::default(), Round(10));
    assert_eq!(Round::start(), Round::from(0));
    assert_eq!(Round(3) + Round(4), Round(7));
    assert_eq!(Round(9) - Round(4), Round(5));
    assert_eq!(Round(3) * Round(4), Round(12));
    let mut r = Round(1);
    r.add_assign(Round(2));
    assert_eq!(r, Round(3));
}

#[test]
fn the_first_gc_depth_stays() {
    let mut cell = None;
    assert_eq!(gc_depth_rounds(&cell), 16);
    init_gc_depth_rounds(&mut cell, 7);
    assert_eq!(gc_depth_rounds(&cell), 28);
    init_gc_depth_rounds(&mut cell, 9);
    assert_eq!(gc_depth_rounds(&cell), 28);
}

#[test]
fn environments_have_names() {
    for env in [ENV::Development, ENV::Testing, ENV::Production] {
        assert_eq!(ENV::from(env.as_str()), env);
    }
    assert_eq!(ENV::from("testing"), ENV::Development);
    assert_eq!(ENV::Testing.as_str(), "Testing");
}

fn party(id: usize) -> Party {
    Party {
        id,
        mempool_address: "127.0.0.1".to_string(),
        mempool_port: 1,
        consensus_address: "127.0.0.1".to_string(),
        consensus_port: 2,
        client_port: 3,
        consensus_client_port: 4,
        data_port: 5,
    }
}

#[test]
fn peers_are_all_others() {
    let mut parties: FnvHashMap<usize, Party> = FnvHashMap::default();
    for id in [3, 0, 2, 1] {
        parties.insert(id, party(id));
    }
    let mut config = Config { parties };
    assert_eq!(config.num_nodes(), 4);
    assert_eq!(config.get(&2).unwrap().id, 2);
    assert!(config.get(&9).is_none());
    assert_eq!(sorted_ids(&config.get_all_ids()), vec![0, 1, 2, 3]);
    let peers = config.peers(2);
    assert_eq!(peers.found, vec![0, 1, 3]);
    assert_eq!(peers.missing, None);
    config.parties.remove(&1);
    config.parties.insert(8, party(8));
    let gap = config.peers(3);
    assert_eq!(gap.found, vec![0]);
    assert_eq!(gap.missing, Some(1));
}

#[test]
fn batches_default_to_a_thousand() {
    let b = BenchConfig::default();
    assert_eq!(b.batch_size, 1000);
    assert_eq!(b.batch_timeout_ms, 1000);
}

#[test]
fn keys_are_shared_out() {
    let publics: Vec<Arc<&str>> = vec![Arc::new("pa"), Arc::new("pb"), Arc::new("pc")];
    let all = KeyConfig::generate(Algorithm::ED25519, vec!["a", "b", "c"], &publics);
    assert_eq!(all.len(), 3);
    for (id, c) in all.iter().enumerate() {
        assert_eq!(c.alg, Algorithm::ED25519);
        assert_eq!(c.secret, ["a", "b", "c"][id]);
        assert_eq!(c.system.len(), 3);
        assert_eq!(*c.system[&1], "pb");
    }
}

#[test]
fn confirmations_reach_the_sender_once() {
    let mut r = ConfirmationRouter::new();
    r.register([1; 32], "alice");
    r.register([2; 32], "bob");
    r.register([2; 32], "carol");
    assert_eq!(r.pending(), 2);
    let out = r.on_committed(&vec![[2; 32], [9; 32], [1; 32], [2; 32]]);
    assert_eq!(out, vec![("carol", [2; 32]), ("alice", [1; 32])]);
    assert_eq!(r.pending(), 0);
}

#[test]
fn pings_are_little_endian() {
    let m = encode_ping(0x0102030405060708);
    assert_eq!(m, [0, 0, 0, 0, 8, 7, 6, 5, 4, 3, 2, 1]);
    for v in [0, 1, -1, 300, -300, i64::MAX, i64::MIN] {
        assert_eq!(encode_ping(v)[4..], v.to_le_bytes());
        assert_eq!(decode_ping(&encode_ping(v)[4..]), v);
    }
}

#[test]
fn pongs_measure_the_round_trip() {
    assert_eq!(on_ping(77, 100), PongStep::Reply(-77));
    assert_eq!(on_ping(0, 100), PongStep::Close);
    assert_eq!(on_ping(i64::MIN, u64::MAX), PongStep::Close);
    assert_eq!(on_ping(-100, 99), PongStep::Close);
    assert_eq!(on_ping(-100, 100 + 5_000_000), PongStep::Fine);
    assert_eq!(on_ping(-100, 100 + 5_000_001), PongStep::Close);
}

#[test]
fn frames_have_a_largest_size() {
    assert_eq!(on_frame_header(0), FrameStep::Ping);
    assert_eq!(on_frame_header(16 * 1024 * 1024), FrameStep::Frame(MAX_SIZE));
    assert_eq!(on_frame_header(16 * 1024 * 1024 + 1), FrameStep::Close);
    assert!(is_active_handshake(ACTIVE_HANDSHAKE) && !is_active_handshake(PASSIVE_HANDSHAKE));
    assert!(is_passive_handshake(0xAEAE) && !is_passive_handshake(0xFEFE0000));
}

#[test]
fn the_lower_id_dials() {
    let plans = peer_plans(4, 2);
    let all: Vec<(usize, bool)> = plans.iter().map(|p| (p.peer_id, p.dials)).collect();
    assert_eq!(all, vec![(0, false), (1, false), (3, true)]);
}

#[test]
fn delays_differ_within_their_range() {
    let delays: Vec<u64> = (0..200).map(|_| sample_delay()).collect();
    assert!(delays.iter().all(|d| (1_000..5_000).contains(d)));
    assert!(delays.iter().any(|d| *d != delays[0]));
}

#[test]
fn sends_are_counted() {
    let mut net = HeraNet::new();
    assert_eq!(net.outcome(1, true), SendOutcome::NotConnected);
    assert!(net.on_connection(1));
    assert!(!net.on_connection(1));
    assert_eq!(net.connected_peers(), 1);
    assert_eq!(net.outcome(1, true), SendOutcome::Enqueued);
    assert_eq!(net.outcome(1, false), SendOutcome::Shed);
    assert!(net.send(SendOutcome::Enqueued).enqueued);
    let warned: Vec<u64> = (1..=600).filter(|_| net.send(SendOutcome::Shed).warn).collect();
    assert_eq!(warned, vec![1, 256, 512]);
    assert!(net.send(SendOutcome::NotConnected).warn);
    assert!(!net.send(SendOutcome::NotConnected).warn);
    assert_eq!((net.outbound_sent_total(), net.outbound_dropped_total()), (1, 600));
    let outcomes = vec![SendOutcome::Enqueued, SendOutcome::Shed, SendOutcome::NotConnected];
    assert_eq!(count_shed(&outcomes), 2);
}

#[test]
fn nodes_are_set_up() {
    assert_eq!(broadcast_peers(&vec![3, 1, 2, 1], 1), vec![3, 2]);
    assert_eq!(max_chain_lead(None), 64);
    assert_eq!(max_chain_lead(Some(0)), 1);
    assert_eq!(max_chain_lead(Some(9)), 9);
    assert_eq!(round_timer_ms(None, 50), 200);
    assert_eq!(round_timer_ms(Some(7), 50), 7);
    assert_eq!(emit_window_secs(0), 1);
    assert_eq!(emit_window_secs(5), 5);
    assert_eq!(txs_per_burst(1), 1);
    assert_eq!(txs_per_burst(100), 10);
    assert_eq!(txs_per_burst(101), 11);
    assert_eq!(txs_per_burst(usize::MAX), usize::MAX / 10);
    assert!(generator_pauses(10, 4, 6));
    assert!(!generator_pauses(10, 5, 6));
    assert!(!generator_pauses(1, 5, 1));
}

struct Load {
    id: usize,
    sample: bool,
}

impl Transaction for Load {
    fn client_id(&self) -> usize {
        1
    }

    fn nonce(&self) -> u64 {
        self.id as u64
    }

    fn hera_timestamp_ns(&self) -> Option<u128> {
        None
    }
}

impl MockTx for Load {
    const HEADER_SIZE: usize = 8;

    fn mock_transaction(tx_id: usize, _client_id: usize, _tx_size: usize, sample: bool, _sample_id: u64) -> Self {
        Load { id: tx_id, sample }
    }
}

fn bench() -> Bench {
    Bench { tx_size: 64, burst_interval_ms: 50, txs_per_burst: 3, bench_emit_window_secs: 0, emit_dp: true }
}

#[test]
fn stressors_send_bursts_and_measure() {
    let mut s = Stressor::new(7, &bench(), ClientMode::LetoBroadcast, 40);
    s.on_burst();
    let b = s.on_burst();
    assert_eq!(b.sample_id, 41);
    assert_eq!(b.target, BurstTarget::All { fault_threshold: 2 });
    let txs: Vec<Load> = make_burst(&b.plan, 1, 64, b.sample_id);
    let made: Vec<(usize, bool)> = txs.iter().map(|t| (t.id, t.sample)).collect();
    assert_eq!(made, vec![(3, true), (4, false), (5, false)]);
    s.on_sent(&vec![[1; 32], [2; 32]], 100);
    s.on_confirmation(&[2; 32], 350);
    s.on_confirmation(&[2; 32], 900);
    s.on_confirmation(&[1; 32], 90);
    assert_eq!(s.on_emit(), vec![250, 0]);
    assert!(s.on_emit().is_empty());
    let mut one = Stressor::new(7, &bench(), ClientMode::ZeusEleaderOnly { eleader_id: Some(4) }, 0);
    assert_eq!(one.on_burst().target, BurstTarget::One(4));
    let mut none = Stressor::new(7, &bench(), ClientMode::ZeusEleaderOnly { eleader_id: None }, 0);
    assert_eq!(none.on_burst().target, BurstTarget::One(0));
    assert_eq!(transaction_rate(&bench()), 60);
    assert_eq!(consensus::client::stresser::emit_window_secs(&bench()), 1);
    assert_eq!((fault_threshold(0), fault_threshold(1), fault_threshold(4)), (0, 0, 1));
    assert_eq!(Settings::default_client_mode(), ClientMode::LetoBroadcast);
    assert_eq!(Settings::default_confirmation_address(), "0.0.0.0");
}

#[test]
fn medians_of_even_counts_are_means() {
    assert_eq!(median_us(&vec![5]), 5);
    assert_eq!(median_us(&vec![9, 1, 4]), 4);
    assert_eq!(median_us(&vec![9, 1, 4, 6]), 5);
    assert_eq!(median_us(&vec![6, 4, 9, 1]), 5);
    assert_eq!(median_us(&vec![4, 7]), 5);
    assert_eq!(median_us(&vec![u64::MAX, u64::MAX]), u64::MAX);
    assert_eq!(median_us(&vec![u64::MAX, u64::MAX - 2]), u64::MAX - 1);
}

fn batcher(my_id: usize) -> RRBatcher<Load> {
    RRBatcher::new(&Parameters::new(my_id, 0, 20, Duration::from_millis(5)))
}

fn load(id: usize) -> Load {
    Load { id, sample: false }
}

#[test]
fn the_leader_seals_one_batch_per_round() {
    let mut b = batcher(0);
    assert!(b.can_propose());
    assert!(b.has_room(10));
    assert!(b.on_tx(load(1), 10).batch.is_none());
    let step = b.on_tx(load(2), 10);
    assert_eq!(step.batch.unwrap().payload.len(), 2);
    assert!(step.reset_timer);
    assert!(b.on_tx(load(3), 10).batch.is_none());
    assert!(!b.can_propose());
    let quiet = b.on_timer();
    assert!(quiet.batch.is_none() && !quiet.reset_timer);
    // The next round is led by somebody else.
    let other = b.on_consensus(BatcherConsensusMsg::NewRound { leader: 1, round: 2 });
    assert!(other.batch.is_none() && other.reset_timer);
    b.on_consensus(BatcherConsensusMsg::NewRound { leader: 0, round: 3 });
    let timed = b.on_timer();
    assert_eq!(timed.batch.unwrap().payload.len(), 1);
}

#[test]
fn batchers_follow_the_chain() {
    let mut b = batcher(1);
    for n in 1..=3 {
        b.on_tx(load(n), 10);
    }
    let batch = |n: usize| Batch { payload: vec![Arc::new(load(n))] };
    let quiet = b.on_consensus(BatcherConsensusMsg::Proposed { batch: batch(1), sizes: vec![10], round: 1 });
    assert!(quiet.batch.is_none() && !quiet.reset_timer);
    b.on_consensus(BatcherConsensusMsg::Rollback { rounds: vec![1] });
    b.on_consensus(BatcherConsensusMsg::Committed { batch: batch(2), round: 1 });
    // Nonces 1 and 2 are stale; only 10 bytes are left, which is no full batch.
    assert!(b.on_consensus(BatcherConsensusMsg::NewRound { leader: 1, round: 2 }).batch.is_none());
    let sealed = b.on_timer().batch.unwrap();
    assert_eq!(sealed.payload.iter().map(|t| t.id).collect::<Vec<_>>(), vec![3]);
}

#[test]
fn a_full_pool_is_sealed_when_the_round_begins() {
    let mut b = batcher(1);
    for n in 1..=3 {
        b.on_tx(load(n), 10);
    }
    let step = b.on_consensus(BatcherConsensusMsg::NewRound { leader: 1, round: 2 });
    assert_eq!(step.batch.unwrap().payload.len(), 2);
}
