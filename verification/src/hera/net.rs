//! The rules of the persistent connections: who dials, what a frame may be, when a connection is
//! given up, and what is counted when a frame is sent.
use crate::fnv_map::{set_contains, set_insert, set_len};
use fnv::FnvHashSet;
use rand::Rng;
use vstd::prelude::*;

verus! {

/// Pings are this many seconds apart.
pub const PING_INTERVAL_SECS: u64 = 30;

/// As many frames wait for a peer before frames are shed.
pub const CHANNEL_CAPACITY: usize = 1_000;

/// A connection with a longer round trip than this, in microseconds, is given up.
pub const MAX_LATENCY_US: u64 = 5_000_000;

/// No frame is larger than this, in bytes.
pub const MAX_SIZE: u32 = 16_777_216;

/// The word that the dialing side opens with.
pub const ACTIVE_HANDSHAKE: u64 = 0xFEFE0000;

/// The word that the other side answers with.
pub const PASSIVE_HANDSHAKE: u64 = 0x0000AEAE;

/// The size of a ping on the wire: an empty frame's header and a number.
pub const PING_SIZE: usize = 12;

/// The wait before a connection is dialed again is at least this long, in milliseconds.
pub const MIN_RECONNECT_MS: u64 = 1_000;

/// The wait before a connection is dialed again is shorter than this, in milliseconds.
pub const MAX_RECONNECT_MS: u64 = 5_000;

/// A shed frame is reported the first time and once in this many times.
pub const DROP_LOG_EVERY: u64 = 256;

/// The lowest `n` bytes of a number, lowest first.
pub open spec fn le_bytes(x: nat, n: nat) -> Seq<u8>
    decreases n,
{
    if n == 0 {
        Seq::empty()
    } else {
        seq![(x % 256) as u8].add(le_bytes(x / 256, (n - 1) as nat))
    }
}

/// The number that some bytes stand for, lowest first.
pub open spec fn from_le(bytes: Seq<u8>) -> nat
    decreases bytes.len(),
{
    if bytes.len() == 0 {
        0
    } else {
        bytes[0] as nat + 256 * from_le(bytes.drop_first())
    }
}

/// A signed number as 64 bits hold it.
pub open spec fn twos_complement(m: i64) -> nat {
    if m >= 0 {
        m as nat
    } else {
        (m + 0x1_0000_0000_0000_0000) as nat
    }
}

/// The signed number that 64 bits hold.
pub open spec fn signed(x: nat) -> int {
    if x < 0x8000_0000_0000_0000 {
        x as int
    } else {
        x - 0x1_0000_0000_0000_0000
    }
}

/// A ping on the wire: the header of an empty frame, then the number.
pub open spec fn spec_ping(message: i64) -> Seq<u8> {
    seq![0u8, 0, 0, 0].add(le_bytes(twos_complement(message), 8))
}

pub fn encode_ping(message: i64) -> (r: [u8; 12])
    ensures
        r@ == spec_ping(message),
{
    let mut m: [u8; 12] = [0u8; 12];
    let mut x: u64 = if message >= 0 {
        message as u64
    } else {
        u64::MAX - (-(message + 1)) as u64
    };
    let ghost whole = le_bytes(twos_complement(message), 8);
    assert(x == twos_complement(message));
    let mut i: usize = 0;
    assert(m@.subrange(4, 4) =~= Seq::empty());
    assert(Seq::<u8>::empty().add(whole) =~= whole);
    while i < 8
        invariant
            i <= 8,
            whole == m@.subrange(4, 4 + i as int).add(le_bytes(x as nat, (8 - i) as nat)),
            m@.len() == 12,
            forall|j: int| 0 <= j < 4 ==> m@[j] == 0,
        decreases 8 - i,
    {
        let b: u8 = (x % 256) as u8;
        let ghost before = m@;
        m[4 + i] = b;
        proof {
            let rest = le_bytes(x as nat / 256, (7 - i) as nat);
            assert(le_bytes(x as nat, (8 - i) as nat) == seq![b].add(rest));
            assert(m@.subrange(4, 4 + i as int + 1) =~= before.subrange(4, 4 + i as int).push(b));
            assert(before.subrange(4, 4 + i as int).add(seq![b].add(rest)) =~= m@.subrange(4, 4 + i as int + 1).add(rest));
        }
        x = x / 256;
        i += 1;
    }
    assert(le_bytes(x as nat, 0) =~= Seq::empty());
    assert(m@.subrange(4, 12) =~= whole);
    assert(m@ =~= spec_ping(message));
    m
}

/// The number of a ping, from what follows the header.
pub fn decode_ping(message: &[u8]) -> (r: i64)
    requires
        message@.len() == 8,
    ensures
        r == signed(from_le(message@)),
{
    let mut x: u64 = 0;
    let mut i: usize = 8;
    assert(message@.skip(8) =~= Seq::empty());
    while i > 0
        invariant
            i <= 8,
            message@.len() == 8,
            x == from_le(message@.skip(i as int)),
            (x as nat) < pow256((8 - i) as nat),
        decreases i,
    {
        proof {
            reveal_with_fuel(pow256, 9);
            assert(message@.skip(i as int - 1).drop_first() =~= message@.skip(i as int));
            assert(message@.skip(i as int - 1)[0] == message@[i as int - 1]);
            assert(pow256((8 - i + 1) as nat) == 256 * pow256((8 - i) as nat));
            assert(256 * x + 255 < 256 * pow256((8 - i) as nat));
        }
        i -= 1;
        x = x * 256 + message[i] as u64;
    }
    assert(message@.skip(0) =~= message@);
    if x < 0x8000_0000_0000_0000 {
        x as i64
    } else {
        -((u64::MAX - x) as i64) - 1
    }
}

/// 256 to the power of `n`.
pub open spec fn pow256(n: nat) -> nat
    decreases n,
{
    if n == 0 {
        1
    } else {
        256 * pow256((n - 1) as nat)
    }
}

proof fn lemma_le_round_trip(x: nat, n: nat)
    requires
        x < pow256(n),
    ensures
        from_le(le_bytes(x, n)) == x,
        le_bytes(x, n).len() == n,
    decreases n,
{
    if n > 0 {
        let rest = le_bytes(x / 256, (n - 1) as nat);
        assert(x / 256 < pow256((n - 1) as nat)) by (nonlinear_arith)
            requires
                x < 256 * pow256((n - 1) as nat),
        ;
        lemma_le_round_trip(x / 256, (n - 1) as nat);
        assert(le_bytes(x, n).drop_first() =~= rest);
    }
}

/// What is read of a ping is what was sent.
pub proof fn law_ping_round_trip(message: i64)
    ensures
        spec_ping(message).len() == PING_SIZE,
        signed(from_le(spec_ping(message).skip(4))) == message,
{
    reveal_with_fuel(pow256, 9);
    lemma_le_round_trip(twos_complement(message), 8);
    assert(spec_ping(message).skip(4) =~= le_bytes(twos_complement(message), 8));
}

/// What a ping or pong leads to.
#[derive(PartialEq, Eq, Debug, Structural, Clone, Copy)]
pub enum PongStep {
    /// This pong goes back.
    Reply(i64),
    /// The round trip was short enough.
    Fine,
    /// The connection is given up.
    Close,
}

/// A number came at time `now_us`. A ping is a positive number and answered by its negative; a
/// pong gives back the time at which this side sent the ping.
pub fn on_ping(ping: i64, now_us: u64) -> (r: PongStep)
    ensures
        r == (if ping > 0 {
            PongStep::Reply((-ping) as i64)
        } else if ping == 0 || ping == i64::MIN {
            PongStep::Close
        } else if now_us < -ping || now_us + ping > MAX_LATENCY_US {
            PongStep::Close
        } else {
            PongStep::Fine
        }),
{
    if ping > 0 {
        return PongStep::Reply(-ping);
    }
    if ping == 0 || ping == i64::MIN {
        return PongStep::Close;
    }
    let ours: u64 = (-ping) as u64;
    if now_us < ours || now_us - ours > MAX_LATENCY_US {
        PongStep::Close
    } else {
        PongStep::Fine
    }
}

/// What follows a frame's header.
#[derive(PartialEq, Eq, Debug, Structural, Clone, Copy)]
pub enum FrameStep {
    /// Nothing: the connection is given up.
    Close,
    /// A ping.
    Ping,
    /// A frame of this size.
    Frame(u32),
}

/// Reads a frame's header.
pub fn on_frame_header(size: u32) -> (r: FrameStep)
    ensures
        r == (if size > MAX_SIZE {
            FrameStep::Close
        } else if size == 0 {
            FrameStep::Ping
        } else {
            FrameStep::Frame(size)
        }),
{
    if size > MAX_SIZE {
        FrameStep::Close
    } else if size == 0 {
        FrameStep::Ping
    } else {
        FrameStep::Frame(size)
    }
}

/// Whether the first word of an inbound connection is the right one.
pub fn is_active_handshake(magic: u64) -> (r: bool)
    ensures
        r == (magic == ACTIVE_HANDSHAKE),
{
    magic == ACTIVE_HANDSHAKE
}

/// Whether the answer to a dialed connection is the right one.
pub fn is_passive_handshake(magic: u64) -> (r: bool)
    ensures
        r == (magic == PASSIVE_HANDSHAKE),
{
    magic == PASSIVE_HANDSHAKE
}

/// A connection to keep up.
#[derive(Clone, Copy)]
pub struct PeerPlan {
    pub peer_id: usize,
    /// Whether this node dials: of two nodes, the one with the lower id does.
    pub dials: bool,
}

/// The connections of node `our_id` among `num_nodes` nodes: one to each other node.
pub open spec fn spec_peer_plans(num_nodes: nat, our_id: usize) -> Seq<PeerPlan>
    decreases num_nodes,
{
    if num_nodes == 0 {
        Seq::empty()
    } else {
        let id = (num_nodes - 1) as usize;
        let rest = spec_peer_plans((num_nodes - 1) as nat, our_id);
        if id == our_id {
            rest
        } else {
            rest.push(PeerPlan { peer_id: id, dials: our_id < id })
        }
    }
}

pub fn peer_plans(num_nodes: usize, our_id: usize) -> (r: Vec<PeerPlan>)
    requires
        our_id < num_nodes,
    ensures
        r@ == spec_peer_plans(num_nodes as nat, our_id),
{
    let mut out: Vec<PeerPlan> = Vec::new();
    let mut id: usize = 0;
    while id < num_nodes
        invariant
            id <= num_nodes,
            out@ == spec_peer_plans(id as nat, our_id),
        decreases num_nodes - id,
    {
        if id != our_id {
            out.push(PeerPlan { peer_id: id, dials: our_id < id });
        }
        id += 1;
    }
    out
}

proof fn lemma_plan_of(num_nodes: nat, our_id: usize, peer: usize)
    requires
        peer < num_nodes <= usize::MAX,
        peer != our_id,
    ensures
        spec_peer_plans(num_nodes, our_id).contains(PeerPlan { peer_id: peer, dials: our_id < peer }),
    decreases num_nodes,
{
    let all = spec_peer_plans(num_nodes, our_id);
    let rest = spec_peer_plans((num_nodes - 1) as nat, our_id);
    let plan = PeerPlan { peer_id: peer, dials: our_id < peer };
    if peer == num_nodes - 1 {
        assert(all[rest.len() as int] == plan);
    } else {
        lemma_plan_of((num_nodes - 1) as nat, our_id, peer);
        let i = choose|i: int| 0 <= i < rest.len() && rest[i] == plan;
        assert(all[i] == plan);
    }
}

/// Of any two nodes, exactly one dials the other.
pub proof fn law_one_side_dials(num_nodes: nat, a: usize, b: usize)
    requires
        a < num_nodes <= usize::MAX,
        b < num_nodes,
        a != b,
    ensures
        spec_peer_plans(num_nodes, a).contains(PeerPlan { peer_id: b, dials: a < b }),
        spec_peer_plans(num_nodes, b).contains(PeerPlan { peer_id: a, dials: b < a }),
        (a < b) != (b < a),
{
    lemma_plan_of(num_nodes, a, b);
    lemma_plan_of(num_nodes, b, a);
}

/// `Rng::gen_range` of the `rand` crate on the generator of the thread: a number of the range.
/// Which one is left to chance.
#[verifier::external_body]
fn random_between(low: u64, high: u64) -> (r: u64)
    requires
        low < high,
    ensures
        low <= r < high,
{
    rand::thread_rng().gen_range(low..high)
}

/// The wait, in milliseconds, before a connection is dialed again: different each time, so that
/// nodes do not dial in step.
pub fn sample_delay() -> (r: u64)
    ensures
        MIN_RECONNECT_MS <= r < MAX_RECONNECT_MS,
{
    random_between(MIN_RECONNECT_MS, MAX_RECONNECT_MS)
}

/// What became of a frame.
#[derive(PartialEq, Eq, Debug, Structural, Clone, Copy)]
pub enum SendOutcome {
    /// It waits for the peer.
    Enqueued,
    /// Too many frames wait for the peer.
    Shed,
    /// The peer has never connected.
    NotConnected,
}

/// What a send is told.
#[derive(Clone, Copy)]
pub struct SendReport {
    pub enqueued: bool,
    /// The loss is worth a warning.
    pub warn: bool,
}

/// The peers that have connected, and what became of the frames so far.
pub struct HeraNet {
    peers: FnvHashSet<usize>,
    sent: u64,
    dropped: u64,
    not_connected: u64,
}

/// What there is to know of the transport.
#[verifier::ext_equal]
pub struct NetState {
    pub peers: Set<usize>,
    pub sent: u64,
    pub dropped: u64,
    pub not_connected: u64,
}

impl HeraNet {
    pub closed spec fn view(&self) -> NetState {
        NetState {
            peers: self.peers@,
            sent: self.sent,
            dropped: self.dropped,
            not_connected: self.not_connected,
        }
    }

    pub fn new() -> (r: Self)
        ensures
            r@ == (NetState { peers: Set::<usize>::empty(), sent: 0, dropped: 0, not_connected: 0 }),
    {
        HeraNet { peers: FnvHashSet::default(), sent: 0, dropped: 0, not_connected: 0 }
    }

    /// A peer has connected. `true` if it is the first time.
    pub fn on_connection(&mut self, peer_id: usize) -> (r: bool)
        ensures
            r == !old(self)@.peers.contains(peer_id),
            final(self)@ == (NetState { peers: old(self)@.peers.insert(peer_id), ..old(self)@ }),
    {
        set_insert(&mut self.peers, peer_id)
    }

    /// How many peers have connected at least once.
    pub fn connected_peers(&self) -> (r: usize)
        ensures
            r == self@.peers.len(),
    {
        set_len(&self.peers)
    }

    /// What becomes of a frame to a peer whose channel says `accepted`.
    pub fn outcome(&self, peer_id: usize, accepted: bool) -> (r: SendOutcome)
        ensures
            r == (if !self@.peers.contains(peer_id) {
                SendOutcome::NotConnected
            } else if accepted {
                SendOutcome::Enqueued
            } else {
                SendOutcome::Shed
            }),
    {
        if !set_contains(&self.peers, &peer_id) {
            SendOutcome::NotConnected
        } else if accepted {
            SendOutcome::Enqueued
        } else {
            SendOutcome::Shed
        }
    }

    /// Counts a frame. The first loss of its kind, and then one in many, is worth a warning.
    pub fn send(&mut self, outcome: SendOutcome) -> (r: SendReport)
        requires
            old(self)@.sent < u64::MAX,
            old(self)@.dropped < u64::MAX,
            old(self)@.not_connected < u64::MAX,
        ensures
            r.enqueued == (outcome == SendOutcome::Enqueued),
            match outcome {
                SendOutcome::Enqueued => !r.warn && final(self)@ == (NetState {
                    sent: (old(self)@.sent + 1) as u64,
                    ..old(self)@
                }),
                SendOutcome::Shed => r.warn == worth_warning(old(self)@.dropped + 1) && final(self)@ == (NetState {
                    dropped: (old(self)@.dropped + 1) as u64,
                    ..old(self)@
                }),
                SendOutcome::NotConnected => r.warn == worth_warning(old(self)@.not_connected + 1) && final(self)@ == (
                NetState { not_connected: (old(self)@.not_connected + 1) as u64, ..old(self)@ }),
            },
    {
        match outcome {
            SendOutcome::Enqueued => {
                self.sent += 1;
                SendReport { enqueued: true, warn: false }
            },
            SendOutcome::Shed => {
                self.dropped += 1;
                SendReport { enqueued: false, warn: self.dropped == 1 || self.dropped % DROP_LOG_EVERY == 0 }
            },
            SendOutcome::NotConnected => {
                self.not_connected += 1;
                SendReport {
                    enqueued: false,
                    warn: self.not_connected == 1 || self.not_connected % DROP_LOG_EVERY == 0,
                }
            },
        }
    }

    /// How many frames were shed.
    pub fn outbound_dropped_total(&self) -> (r: u64)
        ensures
            r == self@.dropped,
    {
        self.dropped
    }

    /// How many frames went out.
    pub fn outbound_sent_total(&self) -> (r: u64)
        ensures
            r == self@.sent,
    {
        self.sent
    }
}

/// Whether the `n`-th loss of a kind is worth a warning.
pub open spec fn worth_warning(n: int) -> bool {
    n == 1 || n % DROP_LOG_EVERY as int == 0
}

/// How many of the outcomes are losses.
pub open spec fn losses(outcomes: Seq<SendOutcome>) -> nat
    decreases outcomes.len(),
{
    if outcomes.len() == 0 {
        0
    } else {
        losses(outcomes.drop_last()) + if outcomes.last() == SendOutcome::Enqueued {
            0nat
        } else {
            1nat
        }
    }
}

/// How many peers a broadcast has been shed to.
pub fn count_shed(outcomes: &Vec<SendOutcome>) -> (r: usize)
    ensures
        r == losses(outcomes@),
        r <= outcomes@.len(),
{
    let mut shed: usize = 0;
    let mut i: usize = 0;
    assert(outcomes@.take(0) =~= Seq::empty());
    while i < outcomes.len()
        invariant
            i <= outcomes@.len(),
            shed == losses(outcomes@.take(i as int)),
            shed <= i,
        decreases outcomes@.len() - i,
    {
        assert(outcomes@.take(i as int + 1).drop_last() =~= outcomes@.take(i as int));
        if outcomes[i] != SendOutcome::Enqueued {
            shed += 1;
        }
        i += 1;
    }
    assert(outcomes@.take(i as int) =~= outcomes@);
    shed
}

/// The bytes of a number, lowest first: what is left of it without the lowest byte follows that byte.
pub proof fn law_bytes_of_a_number(x: nat, n: nat, byte: u8, rest: Seq<u8>)
    ensures
        le_bytes(x, n).len() == n,
        n > 0 ==> le_bytes(x, n)[0] == x % 256,
        n > 0 ==> le_bytes(x, n).drop_first() == le_bytes(x / 256, (n - 1) as nat),
        from_le(Seq::<u8>::empty()) == 0,
        from_le(seq![byte].add(rest)) == byte + 256 * from_le(rest),
    decreases n,
{
    if n > 0 {
        law_bytes_of_a_number(x / 256, (n - 1) as nat, byte, rest);
        assert(le_bytes(x, n).drop_first() =~= le_bytes(x / 256, (n - 1) as nat));
    }
    assert(seq![byte].add(rest).drop_first() =~= rest);
}

/// A ping is the header of an empty frame, four bytes of 0, and the number in eight bytes, negative
/// numbers in two's complement.
pub proof fn law_ping_on_the_wire(message: i64, i: int)
    requires
        0 <= i < 8,
    ensures
        spec_ping(message).len() == 12,
        i < 4 ==> spec_ping(message)[i] == 0,
        message >= 0 ==> spec_ping(message)[4 + i] == le_bytes(message as nat, 8)[i],
        message < 0 ==> spec_ping(message)[4 + i] == le_bytes((message + 0x1_0000_0000_0000_0000) as nat, 8)[i],
        forall|x: nat| x < 0x8000_0000_0000_0000 ==> #[trigger] signed(x) == x,
        forall|x: nat| x >= 0x8000_0000_0000_0000 ==> #[trigger] signed(x) == x - 0x1_0000_0000_0000_0000,
{
    law_bytes_of_a_number(twos_complement(message), 8, 0, Seq::empty());
}

/// A node keeps one connection to each other node and none to itself, in increasing order of their ids.
pub proof fn law_one_connection_per_peer(num_nodes: nat, our_id: usize)
    requires
        num_nodes <= usize::MAX,
    ensures
        ({
            let plans = spec_peer_plans(num_nodes, our_id);
            &&& plans.len() == (if our_id < num_nodes {
                num_nodes - 1
            } else {
                num_nodes as int
            })
            &&& forall|i: int| 0 <= i < plans.len() ==> (#[trigger] plans[i]).peer_id < num_nodes
            &&& forall|i: int| 0 <= i < plans.len() ==> (#[trigger] plans[i]).peer_id != our_id
            &&& forall|i: int| 0 <= i < plans.len() ==> ((#[trigger] plans[i]).dials <==> our_id < plans[i].peer_id)
            &&& forall|i: int, j: int|
                0 <= i < j < plans.len() ==> (#[trigger] plans[i]).peer_id < (#[trigger] plans[j]).peer_id
        }),
    decreases num_nodes,
{
    if num_nodes > 0 {
        law_one_connection_per_peer((num_nodes - 1) as nat, our_id);
        let rest = spec_peer_plans((num_nodes - 1) as nat, our_id);
        let plans = spec_peer_plans(num_nodes, our_id);
        assert forall|i: int| 0 <= i < rest.len() implies #[trigger] plans[i] == rest[i] by {}
    }
}

/// Of the losses of a kind, the first and every 256th are worth a warning.
pub proof fn law_which_losses_are_reported(n: int)
    requires
        n >= 1,
    ensures
        worth_warning(n) <==> n == 1 || n % 256 == 0,
{
}

/// Every frame that is not enqueued is a loss.
pub proof fn law_losses_are_counted(outcomes: Seq<SendOutcome>, outcome: SendOutcome)
    ensures
        losses(Seq::<SendOutcome>::empty()) == 0,
        outcome is Enqueued ==> losses(outcomes.push(outcome)) == losses(outcomes),
        outcome is Shed || outcome is NotConnected ==> losses(outcomes.push(outcome)) == losses(outcomes) + 1,
{
    assert(outcomes.push(outcome).drop_last() =~= outcomes);
}

} // verus!
