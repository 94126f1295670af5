//! The order of rounds: messages wait until their round comes, and the messages under way are
//! given up when their round is long past.
use crate::fnv_map::{map_insert, map_keys, map_len, map_remove};
use crate::leto::types::ProtocolMsg;
use crate::types::{certificate_of, certifies, Certificate, Signature};
use fnv::FnvHashMap;
use std::collections::VecDeque;
use std::sync::Arc;
use vstd::prelude::*;

verus! {

/// What happens next in a round.
pub enum Event<Tx> {
    /// The round took too long.
    Timeout,
    /// A message of the round.
    Msg(ProtocolMsg<Tx>),
}

/// Whether a message of `handler_round` is still retransmitted in `current_round`: for two rounds
/// per node, and always in the first ones.
pub open spec fn retains(handler_round: u64, current_round: u64, num_nodes: usize) -> bool {
    current_round <= 2 * num_nodes || handler_round > current_round - 2 * num_nodes
}

pub fn gc_cancel_handlers(handler_round: u64, current_round: u64, num_nodes: usize) -> (r: bool)
    requires
        2 * num_nodes <= u64::MAX,
    ensures
        r == retains(handler_round, current_round, num_nodes),
{
    let window: u64 = 2 * (num_nodes as u64);
    if current_round <= window {
        return true;
    }
    handler_round > current_round - window
}

/// What there is to know of the round.
#[verifier::ext_equal]
pub struct ContextView<Tx> {
    pub round: u64,
    pub num_nodes: usize,
    /// The messages to handle, in order.
    pub ready: Seq<ProtocolMsg<Tx>>,
    /// The messages of rounds to come, by kind.
    pub proposals: Map<u64, Seq<ProtocolMsg<Tx>>>,
    pub blames: Map<u64, Seq<ProtocolMsg<Tx>>>,
    pub qcs: Map<u64, Seq<ProtocolMsg<Tx>>>,
    /// The tickets of the messages under way, by the round they were sent in.
    pub handlers: Map<u64, Seq<u64>>,
    pub timer_enabled: bool,
    pub blame_map: Map<usize, Arc<Signature>>,
    pub got_qc: bool,
}

/// What a map of lists has for a round.
pub open spec fn at_round<V>(m: Map<u64, Seq<V>>, round: u64) -> Seq<V> {
    if m.contains_key(round) {
        m[round]
    } else {
        Seq::empty()
    }
}

impl<Tx> ContextView<Tx> {
    /// The first round, of which nothing is known yet.
    pub open spec fn fresh(num_nodes: usize) -> Self {
        ContextView {
            round: 1,
            num_nodes,
            ready: Seq::empty(),
            proposals: Map::empty(),
            blames: Map::empty(),
            qcs: Map::empty(),
            handlers: Map::empty(),
            timer_enabled: true,
            blame_map: Map::empty(),
            got_qc: false,
        }
    }

    /// Each blame is filed under the node that made it, and two rounds per node can be counted.
    pub open spec fn inv(self) -> bool {
        &&& 2 * self.num_nodes <= u64::MAX
        &&& forall|id: usize| #[trigger] self.blame_map.contains_key(id) ==> self.blame_map[id].signer == id
    }

    /// A message of an old round is dropped, one of the current round is ready, one of a later
    /// round waits.
    pub open spec fn synced(self, msg: ProtocolMsg<Tx>) -> Self {
        let round = msg.spec_round()->0;
        if round < self.round {
            self
        } else if round == self.round {
            ContextView { ready: self.ready.push(msg), ..self }
        } else {
            match msg {
                ProtocolMsg::Propose { .. } => ContextView {
                    proposals: self.proposals.insert(round, at_round(self.proposals, round).push(msg)),
                    ..self
                },
                ProtocolMsg::Blame { .. } => ContextView {
                    blames: self.blames.insert(round, at_round(self.blames, round).push(msg)),
                    ..self
                },
                _ => ContextView {
                    qcs: self.qcs.insert(round, at_round(self.qcs, round).push(msg)),
                    ..self
                },
            }
        }
    }

    /// The next round: what waited for it is ready, proposals first, then certificates, then
    /// blames; what was ready is dropped.
    pub open spec fn advanced(self) -> Self {
        let next = (self.round + 1) as u64;
        ContextView {
            round: next,
            ready: at_round(self.proposals, next).add(at_round(self.qcs, next)).add(at_round(self.blames, next)),
            proposals: self.proposals.remove(next),
            blames: self.blames.remove(next),
            qcs: self.qcs.remove(next),
            handlers: self.handlers.restrict(Set::new(|r: u64| retains(r, next, self.num_nodes))),
            timer_enabled: true,
            blame_map: Map::empty(),
            got_qc: false,
            ..self
        }
    }
}

/// The state of the current round.
#[verifier::reject_recursive_types(Tx)]
pub struct RoundContext<Tx> {
    current_round: u64,
    num_nodes: usize,
    msg_buf: VecDeque<ProtocolMsg<Tx>>,
    proposals_ready: FnvHashMap<u64, VecDeque<ProtocolMsg<Tx>>>,
    blame_ready: FnvHashMap<u64, VecDeque<ProtocolMsg<Tx>>>,
    blame_qc_ready: FnvHashMap<u64, VecDeque<ProtocolMsg<Tx>>>,
    cancel_handlers: FnvHashMap<u64, Vec<u64>>,
    timer_enabled: bool,
    blame_map: FnvHashMap<usize, Arc<Signature>>,
    got_qc: bool,
}

/// Appends a message to the list of a round.
fn queue_msg<Tx>(m: &mut FnvHashMap<u64, VecDeque<ProtocolMsg<Tx>>>, round: u64, msg: ProtocolMsg<Tx>)
    ensures
        lists(final(m)@) == lists(old(m)@).insert(round, at_round(lists(old(m)@), round).push(msg)),
{
    let ghost start = lists(m@);
    let mut line: VecDeque<ProtocolMsg<Tx>> = match map_remove(m, &round) {
        Some(q) => q,
        None => VecDeque::new(),
    };
    assert(line@ =~= at_round(start, round));
    line.push_back(msg);
    map_insert(m, round, line);
    assert(lists(m@) =~= start.insert(round, at_round(start, round).push(msg)));
}

/// Takes the list of a round out.
fn take_msgs<Tx>(m: &mut FnvHashMap<u64, VecDeque<ProtocolMsg<Tx>>>, round: u64) -> (r: VecDeque<ProtocolMsg<Tx>>)
    ensures
        r@ == at_round(lists(old(m)@), round),
        lists(final(m)@) == lists(old(m)@).remove(round),
{
    let ghost start = lists(m@);
    let line: VecDeque<ProtocolMsg<Tx>> = match map_remove(m, &round) {
        Some(q) => q,
        None => VecDeque::new(),
    };
    assert(line@ =~= at_round(start, round));
    assert(lists(m@) =~= start.remove(round));
    line
}

/// A map of queues as a map of lists.
pub open spec fn lists<Tx>(m: Map<u64, VecDeque<ProtocolMsg<Tx>>>) -> Map<u64, Seq<ProtocolMsg<Tx>>> {
    m.map_values(|q: VecDeque<ProtocolMsg<Tx>>| q@)
}

impl<Tx> RoundContext<Tx> {
    pub closed spec fn view(&self) -> ContextView<Tx> {
        ContextView {
            round: self.current_round,
            num_nodes: self.num_nodes,
            ready: self.msg_buf@,
            proposals: lists(self.proposals_ready@),
            blames: lists(self.blame_ready@),
            qcs: lists(self.blame_qc_ready@),
            handlers: self.cancel_handlers@.map_values(|v: Vec<u64>| v@),
            timer_enabled: self.timer_enabled,
            blame_map: self.blame_map@,
            got_qc: self.got_qc,
        }
    }

    /// Round 1, with no messages.
    pub fn new(num_nodes: usize) -> (r: Self)
        requires
            2 * num_nodes <= u64::MAX,
        ensures
            r@.inv(),
            r@ == ContextView::<Tx>::fresh(num_nodes),
    {
        let r = RoundContext {
            current_round: 1,
            num_nodes,
            msg_buf: VecDeque::new(),
            proposals_ready: FnvHashMap::default(),
            blame_ready: FnvHashMap::default(),
            blame_qc_ready: FnvHashMap::default(),
            cancel_handlers: FnvHashMap::default(),
            timer_enabled: true,
            blame_map: FnvHashMap::default(),
            got_qc: false,
        };
        proof {
            assert(r@.proposals =~= Map::empty());
            assert(r@.blames =~= Map::empty());
            assert(r@.qcs =~= Map::empty());
            assert(r@.handlers =~= Map::empty());
        }
        r
    }

    /// The current round.
    pub fn round(&self) -> (r: u64)
        ensures
            r == self@.round,
    {
        self.current_round
    }

    /// Whether the round has a certificate.
    pub fn got_qc(&self) -> (r: bool)
        ensures
            r == self@.got_qc,
    {
        self.got_qc
    }

    /// The round has a certificate now.
    pub fn set_got_qc(&mut self)
        requires
            old(self)@.inv(),
        ensures
            final(self)@.inv(),
            final(self)@ == (ContextView { got_qc: true, ..old(self)@ }),
    {
        self.got_qc = true;
    }

    /// No timeout in this round any more.
    pub fn disable_timer(&mut self)
        requires
            old(self)@.inv(),
        ensures
            final(self)@.inv(),
            final(self)@ == (ContextView { timer_enabled: false, ..old(self)@ }),
    {
        self.timer_enabled = false;
    }

    /// A message of this round is under way.
    pub fn add_handler(&mut self, ticket: u64)
        requires
            old(self)@.inv(),
        ensures
            final(self)@.inv(),
            final(self)@ == (ContextView {
                handlers: old(self)@.handlers.insert(
                    old(self)@.round,
                    at_round(old(self)@.handlers, old(self)@.round).push(ticket),
                ),
                ..old(self)@
            }),
    {
        let ghost start = self@;
        let round: u64 = self.current_round;
        let mut line: Vec<u64> = match map_remove(&mut self.cancel_handlers, &round) {
            Some(v) => v,
            None => Vec::new(),
        };
        assert(line@ =~= at_round(start.handlers, round));
        line.push(ticket);
        map_insert(&mut self.cancel_handlers, round, line);
        assert(self@.handlers =~= start.handlers.insert(round, at_round(start.handlers, round).push(ticket)));
    }

    /// Several messages of this round are under way.
    pub fn add_handlers(&mut self, tickets: Vec<u64>)
        requires
            old(self)@.inv(),
        ensures
            final(self)@.inv(),
            final(self)@ == (ContextView {
                handlers: old(self)@.handlers.insert(
                    old(self)@.round,
                    at_round(old(self)@.handlers, old(self)@.round).add(tickets@),
                ),
                ..old(self)@
            }),
    {
        let ghost start = self@;
        let round: u64 = self.current_round;
        let mut line: Vec<u64> = match map_remove(&mut self.cancel_handlers, &round) {
            Some(v) => v,
            None => Vec::new(),
        };
        assert(line@ =~= at_round(start.handlers, round));
        let mut more = tickets;
        line.append(&mut more);
        map_insert(&mut self.cancel_handlers, round, line);
        assert(self@.handlers =~= start.handlers.insert(round, at_round(start.handlers, round).add(tickets@)));
    }

    /// Files a message that belongs to a round.
    pub fn sync(&mut self, msg: ProtocolMsg<Tx>)
        requires
            old(self)@.inv(),
            msg.spec_round() is Some,
        ensures
            final(self)@.inv(),
            final(self)@ == old(self)@.synced(msg),
    {
        let round: u64 = match msg.round() {
            Some(r) => r,
            None => {
                return;
            },
        };
        if round < self.current_round {
            return;
        }
        if round == self.current_round {
            self.msg_buf.push_back(msg);
            return;
        }
        match msg {
            ProtocolMsg::Propose { .. } => {
                queue_msg(&mut self.proposals_ready, round, msg);
            },
            ProtocolMsg::Blame { .. } => {
                queue_msg(&mut self.blame_ready, round, msg);
            },
            _ => {
                queue_msg(&mut self.blame_qc_ready, round, msg);
            },
        }
    }

    /// What happens next: a message of the round, or a timeout if there is none, the timer counts
    /// and it has fired.
    pub fn next_event(&mut self, timer_fired: bool) -> (r: Option<Event<Tx>>)
        requires
            old(self)@.inv(),
        ensures
            final(self)@.inv(),
            if old(self)@.ready.len() > 0 {
                r == Some(Event::Msg(old(self)@.ready[0])) && final(self)@ == (ContextView {
                    ready: old(self)@.ready.drop_first(),
                    ..old(self)@
                })
            } else {
                final(self)@ == old(self)@ && r == (if old(self)@.timer_enabled && timer_fired {
                    Some(Event::<Tx>::Timeout)
                } else {
                    None
                })
            },
    {
        let ghost start = self@;
        match self.msg_buf.pop_front() {
            Some(m) => {
                assert(start.ready.subrange(1, start.ready.len() as int) =~= start.ready.drop_first());
                Some(Event::Msg(m))
            },
            None => if self.timer_enabled && timer_fired {
                Some(Event::Timeout)
            } else {
                None
            },
        }
    }

    /// Takes the proposals that waited for the current round.
    pub fn propose_msgs(&mut self) -> (r: VecDeque<ProtocolMsg<Tx>>)
        requires
            old(self)@.inv(),
        ensures
            final(self)@.inv(),
            r@ == at_round(old(self)@.proposals, old(self)@.round),
            final(self)@ == (ContextView {
                proposals: old(self)@.proposals.remove(old(self)@.round),
                ..old(self)@
            }),
    {
        take_msgs(&mut self.proposals_ready, self.current_round)
    }

    /// Takes the blames that waited for the current round.
    pub fn blame_msgs(&mut self) -> (r: VecDeque<ProtocolMsg<Tx>>)
        requires
            old(self)@.inv(),
        ensures
            final(self)@.inv(),
            r@ == at_round(old(self)@.blames, old(self)@.round),
            final(self)@ == (ContextView {
                blames: old(self)@.blames.remove(old(self)@.round),
                ..old(self)@
            }),
    {
        take_msgs(&mut self.blame_ready, self.current_round)
    }

    /// Takes the certificates that waited for the current round.
    pub fn blame_qc_msgs(&mut self) -> (r: VecDeque<ProtocolMsg<Tx>>)
        requires
            old(self)@.inv(),
        ensures
            final(self)@.inv(),
            r@ == at_round(old(self)@.qcs, old(self)@.round),
            final(self)@ == (ContextView { qcs: old(self)@.qcs.remove(old(self)@.round), ..old(self)@ }),
    {
        take_msgs(&mut self.blame_qc_ready, self.current_round)
    }

    /// Moves on to the next round.
    pub fn advance_round(&mut self)
        requires
            old(self)@.inv(),
            old(self)@.round < u64::MAX,
        ensures
            final(self)@.inv(),
            final(self)@ == old(self)@.advanced(),
    {
        let ghost start = self@;
        self.current_round += 1;
        self.gc_handlers();
        self.timer_enabled = true;
        self.blame_map = FnvHashMap::default();
        self.got_qc = false;
        let mut buf: VecDeque<ProtocolMsg<Tx>> = self.propose_msgs();
        let mut qcs = self.blame_qc_msgs();
        buf.append(&mut qcs);
        let mut blames = self.blame_msgs();
        buf.append(&mut blames);
        self.msg_buf = buf;
        assert(self@ =~= start.advanced());
    }

    /// Gives up the messages of rounds that are long past.
    fn gc_handlers(&mut self)
        requires
            2 * old(self)@.num_nodes <= u64::MAX,
        ensures
            final(self)@ == (ContextView {
                handlers: old(self)@.handlers.restrict(
                    Set::new(|r: u64| retains(r, old(self)@.round, old(self)@.num_nodes)),
                ),
                ..old(self)@
            }),
    {
        let ghost start = self@;
        let keys = map_keys(&self.cancel_handlers);
        let mut i: usize = 0;
        proof {
            assert(self.cancel_handlers@.dom() =~= start.handlers.dom());
        }
        while i < keys.len()
            invariant
                i <= keys@.len(),
                keys@.no_duplicates(),
                keys@.to_set() == start.handlers.dom(),
                2 * start.num_nodes <= u64::MAX,
                start == old(self)@,
                self@ == (ContextView { handlers: self@.handlers, ..start }),
                self@.handlers.submap_of(start.handlers),
                forall|j: int| 0 <= j < keys@.len() ==> (self@.handlers.contains_key(#[trigger] keys@[j]) <==> j >= i
                    || retains(keys@[j], start.round, start.num_nodes)),
            decreases keys@.len() - i,
        {
            let k: u64 = keys[i];
            if !gc_cancel_handlers(k, self.current_round, self.num_nodes) {
                let ghost before = self@;
                map_remove(&mut self.cancel_handlers, &k);
                assert(self@.handlers =~= before.handlers.remove(k));
            }
            i += 1;
        }
        proof {
            let kept = start.handlers.restrict(Set::new(|r: u64| retains(r, start.round, start.num_nodes)));
            assert forall|r: u64| self@.handlers.contains_key(r) <==> #[trigger] kept.contains_key(r) by {
                if start.handlers.contains_key(r) {
                    assert(keys@.to_set().contains(r));
                    let j = choose|j: int| 0 <= j < keys@.len() && keys@[j] == r;
                    assert(keys@[j] == r);
                }
            }
            assert(self@.handlers =~= kept);
        }
    }

    /// Notes a blame of the current round.
    pub fn add_blame(&mut self, auth: Arc<Signature>)
        requires
            old(self)@.inv(),
        ensures
            final(self)@.inv(),
            final(self)@ == (ContextView {
                blame_map: old(self)@.blame_map.insert(auth.signer, auth),
                ..old(self)@
            }),
    {
        let signer: usize = auth.signer;
        map_insert(&mut self.blame_map, signer, auth);
    }

    /// How many nodes blame the round.
    pub fn blame_count(&self) -> (r: usize)
        ensures
            r == self@.blame_map.dom().len(),
    {
        map_len(&self.blame_map)
    }

    /// Takes the blames out as a certificate. The order of its signatures is left open.
    pub fn take_certificate(&mut self) -> (r: Certificate)
        requires
            old(self)@.inv(),
        ensures
            final(self)@.inv(),
            final(self)@ == (ContextView { blame_map: Map::empty(), got_qc: true, ..old(self)@ }),
            certifies(r.sigs@, old(self)@.blame_map),
    {
        assert forall|id: usize| #[trigger] self.blame_map@.contains_key(id) implies self.blame_map@[id].signer == id by {
            assert(self@.blame_map.contains_key(id));
        }
        let qc = certificate_of(&self.blame_map);
        self.got_qc = true;
        self.blame_map = FnvHashMap::default();
        qc
    }
}

/// A proposal that came early is handled before every certificate and blame of its round.
pub proof fn law_early_proposal_comes_first<Tx>(s: ContextView<Tx>, msg: ProtocolMsg<Tx>)
    requires
        msg is Propose,
        s.round < u64::MAX,
        msg.spec_round() == Some((s.round + 1) as u64),
        at_round(s.proposals, (s.round + 1) as u64).len() == 0,
    ensures
        s.synced(msg).advanced().ready.len() > 0,
        s.synced(msg).advanced().ready[0] == msg,
{
    let next = (s.round + 1) as u64;
    let e = s.synced(msg);
    assert(at_round(e.proposals, next)[0] == msg);
}

/// Entering a round leaves no blame and no certificate of the one before, and starts its timer.
pub proof fn law_round_starts_clean<Tx>(s: ContextView<Tx>)
    ensures
        s.advanced().blame_map == Map::<usize, Arc<Signature>>::empty(),
        !s.advanced().got_qc,
        s.advanced().timer_enabled,
{
}

/// A message under way in the current round is not given up for as long as two rounds per node.
pub proof fn law_recent_handlers_stay(handler_round: u64, current_round: u64, num_nodes: usize)
    requires
        handler_round <= current_round,
        current_round - handler_round < 2 * num_nodes,
    ensures
        retains(handler_round, current_round, num_nodes),
{
}

} // verus!
