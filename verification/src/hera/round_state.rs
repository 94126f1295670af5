//! The order of rounds: messages wait until their round comes.
use crate::digest::Digest;
use crate::fnv_map::{map_insert, map_len, map_remove, retain_from};
use crate::hera::types::HeraMsg;
use crate::types::{certificate_of, certifies, Certificate, Signature};
use fnv::FnvHashMap;
use std::collections::VecDeque;
use std::sync::Arc;
use vstd::prelude::*;

verus! {

/// What there is to know of the round.
#[verifier::ext_equal]
pub struct RoundView<Tx> {
    pub round: u64,
    /// The messages to handle, in order.
    pub ready: Seq<HeraMsg<Tx>>,
    /// The messages of rounds to come.
    pub future: Map<u64, Seq<HeraMsg<Tx>>>,
    /// The blames of the current round, by the node that made them.
    pub blames: Map<usize, Arc<Signature>>,
    /// The highest element that they report.
    pub best: Option<(u64, Digest)>,
    /// Whether the round has a certificate.
    pub got_qc: bool,
}

impl<Tx> RoundView<Tx> {
    /// The messages that wait for a round.
    pub open spec fn waiting(self, round: u64) -> Seq<HeraMsg<Tx>> {
        if self.future.contains_key(round) {
            self.future[round]
        } else {
            Seq::empty()
        }
    }

    /// A message of an old round is dropped, one of the current round is ready, one of a later
    /// round waits.
    pub open spec fn enqueued(self, msg: HeraMsg<Tx>, round: u64) -> Self {
        if round < self.round {
            self
        } else if round == self.round {
            RoundView { ready: self.ready.push(msg), ..self }
        } else {
            RoundView { future: self.future.insert(round, self.waiting(round).push(msg)), ..self }
        }
    }

    /// The round is `target` and nobody has blamed in it; what waited for it is ready, after what
    /// is ready already.
    pub open spec fn entered(self, target: u64) -> Self {
        RoundView {
            round: target,
            ready: self.ready.add(self.waiting(target)),
            future: self.future.remove(target).restrict(Set::new(|r: u64| r >= target)),
            blames: Map::empty(),
            best: None,
            got_qc: false,
        }
    }

    /// The next round.
    pub open spec fn advanced(self) -> Self {
        self.entered((self.round + 1) as u64)
    }

    /// A later round, without what was ready. A round that is not later changes nothing.
    pub open spec fn fast_forwarded(self, target: u64) -> Self {
        if target <= self.round {
            self
        } else {
            RoundView { ready: Seq::empty(), ..self }.entered(target)
        }
    }

    /// A blame is noted, and the highest element it reports.
    pub open spec fn blamed(self, auth: Arc<Signature>, highest_round: u64, highest_hash: Digest) -> Self {
        RoundView {
            blames: self.blames.insert(auth.signer, auth),
            best: match self.best {
                Some(b) if highest_round <= b.0 => self.best,
                _ => Some((highest_round, highest_hash)),
            },
            ..self
        }
    }
}

/// The state of the current round.
#[verifier::reject_recursive_types(Tx)]
pub struct HeraRoundState<Tx> {
    current_round: u64,
    msg_buf: VecDeque<HeraMsg<Tx>>,
    future_msgs: FnvHashMap<u64, VecDeque<HeraMsg<Tx>>>,
    blame_map: FnvHashMap<usize, Arc<Signature>>,
    blame_best: Option<(u64, Digest)>,
    got_qc: bool,
}

impl<Tx> HeraRoundState<Tx> {
    pub closed spec fn view(&self) -> RoundView<Tx> {
        RoundView {
            round: self.current_round,
            ready: self.msg_buf@,
            future: self.future_msgs@.map_values(|q: VecDeque<HeraMsg<Tx>>| q@),
            blames: self.blame_map@,
            best: self.blame_best,
            got_qc: self.got_qc,
        }
    }

    /// Round 1, with no messages.
    pub fn new() -> (r: Self)
        ensures
            r@ == (RoundView::<Tx> {
                round: 1,
                ready: Seq::empty(),
                future: Map::empty(),
                blames: Map::empty(),
                best: None,
                got_qc: false,
            }),
    {
        let r = HeraRoundState {
            current_round: 1,
            msg_buf: VecDeque::new(),
            future_msgs: FnvHashMap::default(),
            blame_map: FnvHashMap::default(),
            blame_best: None,
            got_qc: false,
        };
        assert(r@.future =~= Map::empty());
        r
    }

    /// The current round.
    pub fn round(&self) -> (r: u64)
        ensures
            r == self@.round,
    {
        self.current_round
    }

    /// Whether the round has a certificate.
    pub fn got_qc(&self) -> (r: bool)
        ensures
            r == self@.got_qc,
    {
        self.got_qc
    }

    /// The round has a certificate now.
    pub fn set_got_qc(&mut self)
        ensures
            final(self)@ == (RoundView { got_qc: true, ..old(self)@ }),
    {
        self.got_qc = true;
    }

    /// The highest element that the blames report.
    pub fn blame_best(&self) -> (r: Option<(u64, Digest)>)
        ensures
            r == self@.best,
    {
        self.blame_best
    }

    /// How many nodes blame the round.
    pub fn blame_count(&self) -> (r: usize)
        ensures
            r == self@.blames.dom().len(),
    {
        map_len(&self.blame_map)
    }

    /// Whether a message is ready.
    pub fn is_ready(&self) -> (r: bool)
        ensures
            r == (self@.ready.len() > 0),
    {
        self.msg_buf.len() > 0
    }

    /// Takes the next message.
    pub fn pop_msg(&mut self) -> (r: Option<HeraMsg<Tx>>)
        ensures
            match r {
                Some(m) => old(self)@.ready.len() > 0 && m == old(self)@.ready[0] && final(self)@ == (RoundView {
                    ready: old(self)@.ready.drop_first(),
                    ..old(self)@
                }),
                None => old(self)@.ready.len() == 0 && final(self)@ == old(self)@,
            },
    {
        let r = self.msg_buf.pop_front();
        proof {
            if old(self)@.ready.len() > 0 {
                assert(old(self)@.ready.subrange(1, old(self)@.ready.len() as int) =~= old(self)@.ready.drop_first());
            }
        }
        r
    }

    /// Files a message under its round.
    pub fn enqueue(&mut self, msg: HeraMsg<Tx>, msg_round: u64)
        ensures
            final(self)@ == old(self)@.enqueued(msg, msg_round),
    {
        if msg_round < self.current_round {
            return;
        }
        if msg_round == self.current_round {
            self.msg_buf.push_back(msg);
            return;
        }
        let ghost start = self@;
        let mut line: VecDeque<HeraMsg<Tx>> = match map_remove(&mut self.future_msgs, &msg_round) {
            Some(q) => q,
            None => VecDeque::new(),
        };
        assert(line@ =~= start.waiting(msg_round));
        line.push_back(msg);
        map_insert(&mut self.future_msgs, msg_round, line);
        assert(self@.future =~= start.future.insert(msg_round, start.waiting(msg_round).push(msg)));
    }

    fn enter(&mut self, target: u64)
        ensures
            final(self)@ == old(self)@.entered(target),
    {
        let ghost start = self@;
        self.current_round = target;
        self.blame_map = FnvHashMap::default();
        self.blame_best = None;
        self.got_qc = false;
        if let Some(q) = map_remove(&mut self.future_msgs, &target) {
            let mut msgs = q;
            self.msg_buf.append(&mut msgs);
            assert(self@.ready =~= start.ready.add(start.waiting(target)));
        } else {
            assert(start.ready.add(start.waiting(target)) =~= start.ready);
        }
        retain_from(&mut self.future_msgs, target);
        assert(self@.future =~= start.entered(target).future);
    }

    /// Moves on to the next round.
    pub fn advance_round(&mut self)
        requires
            old(self)@.round < u64::MAX,
        ensures
            final(self)@ == old(self)@.advanced(),
    {
        self.enter(self.current_round + 1);
    }

    /// Jumps to a later round. What was ready is stale by then and dropped.
    pub fn fast_forward(&mut self, target: u64)
        ensures
            final(self)@ == old(self)@.fast_forwarded(target),
    {
        if target <= self.current_round {
            return;
        }
        self.msg_buf = VecDeque::new();
        self.enter(target);
    }

    /// Notes a blame.
    pub fn add_blame(&mut self, auth: Arc<Signature>, highest_round: u64, highest_hash: Digest)
        ensures
            final(self)@ == old(self)@.blamed(auth, highest_round, highest_hash),
    {
        let signer: usize = auth.signer;
        map_insert(&mut self.blame_map, signer, auth);
        let better: bool = match &self.blame_best {
            Some(b) => highest_round > b.0,
            None => true,
        };
        if better {
            self.blame_best = Some((highest_round, highest_hash));
        }
    }

    /// Takes the blames out as a certificate. The order of its signatures is left open.
    pub fn take_certificate(&mut self) -> (r: Certificate)
        requires
            forall|id: usize| #[trigger] old(self)@.blames.contains_key(id) ==> old(self)@.blames[id].signer == id,
        ensures
            final(self)@ == (RoundView { blames: Map::empty(), got_qc: true, ..old(self)@ }),
            certifies(r.sigs@, old(self)@.blames),
    {
        let qc = certificate_of(&self.blame_map);
        self.got_qc = true;
        self.blame_map = FnvHashMap::default();
        qc
    }
}

/// A message that came early is ready when its round comes.
pub proof fn law_early_message_is_kept<Tx>(s: RoundView<Tx>, msg: HeraMsg<Tx>, round: u64)
    requires
        round > s.round,
    ensures
        s.enqueued(msg, round).fast_forwarded(round).ready.contains(msg),
        round == s.round + 1 ==> s.enqueued(msg, round).advanced().ready.contains(msg),
{
    let e = s.enqueued(msg, round);
    let n = s.waiting(round).len() as int;
    assert(e.waiting(round)[n] == msg);
    let f = e.fast_forwarded(round).ready;
    assert(f[n] == msg);
    if round == s.round + 1 {
        let a = e.advanced().ready;
        assert(a[s.ready.len() + n] == msg);
    }
}

/// A message of a round that is over is never handled.
pub proof fn law_old_message_is_dropped<Tx>(s: RoundView<Tx>, msg: HeraMsg<Tx>, round: u64)
    requires
        round < s.round,
    ensures
        s.enqueued(msg, round) == s,
{
}

/// A message of the current round is ready behind the others, one of a later round waits for it behind
/// those that came before, and nothing else changes.
pub proof fn law_messages_are_filed_by_round<Tx>(s: RoundView<Tx>, msg: HeraMsg<Tx>, round: u64, other: u64)
    requires
        other != round,
    ensures
        ({
            let e = s.enqueued(msg, round);
            let line = if s.future.contains_key(round) {
                s.future[round]
            } else {
                Seq::empty()
            };
            &&& round == s.round ==> e.ready == s.ready.push(msg) && e.future == s.future
            &&& round > s.round ==> e.ready == s.ready && e.future.contains_key(round) && e.future[round]
                == line.push(msg)
            &&& round < s.round ==> e == s
            &&& e.future.contains_key(other) == s.future.contains_key(other)
            &&& s.future.contains_key(other) ==> e.future[other] == s.future[other]
            &&& e.round == s.round && e.blames == s.blames && e.best == s.best && e.got_qc == s.got_qc
        }),
{
}

/// A round that comes is clean: nobody has blamed in it and it has no certificate. What waited for it is
/// ready, in the order it came; only the next round keeps what was ready before. What waits for later
/// rounds waits on, and what waited for rounds that are over is gone.
pub proof fn law_a_round_starts_clean<Tx>(s: RoundView<Tx>, target: u64, later: u64)
    requires
        s.round < target,
    ensures
        ({
            let e = s.fast_forwarded(target);
            let line = if s.future.contains_key(target) {
                s.future[target]
            } else {
                Seq::empty()
            };
            &&& e.round == target
            &&& e.ready == line
            &&& e.blames == Map::<usize, Arc<Signature>>::empty() && e.best is None && !e.got_qc
            &&& e.future.contains_key(later) <==> s.future.contains_key(later) && later > target
            &&& e.future.contains_key(later) ==> e.future[later] == s.future[later]
            &&& target == s.round + 1 ==> s.advanced() == (RoundView { ready: s.ready + line, ..e })
        }),
{
    let e = s.fast_forwarded(target);
    assert(e.ready =~= s.waiting(target));
}

/// A round that is not later is not jumped to.
pub proof fn law_rounds_do_not_go_back<Tx>(s: RoundView<Tx>, target: u64)
    requires
        target <= s.round,
    ensures
        s.fast_forwarded(target) == s,
{
}

/// A blame counts for the node that made it, once. Of the elements that blames report, the highest one is
/// remembered, and of equally high ones the first.
pub proof fn law_highest_report_is_remembered<Tx>(s: RoundView<Tx>, auth: Arc<Signature>, round: u64, hash: Digest)
    ensures
        ({
            let e = s.blamed(auth, round, hash);
            &&& e.blames == s.blames.insert(auth.signer, auth)
            &&& s.best is None ==> e.best == Some((round, hash))
            &&& s.best matches Some(b) ==> round > b.0 ==> e.best == Some((round, hash))
            &&& s.best matches Some(b) ==> round <= b.0 ==> e.best == Some(b)
            &&& e.round == s.round && e.ready == s.ready && e.future == s.future && e.got_qc == s.got_qc
        }),
{
}

} // verus!
