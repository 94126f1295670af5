//! What the steps of the protocol, its rounds, its rotation and its delivery do, told by their
//! outcomes.
use crate::chain_state::ChainTip;
use crate::digest::Digest;
use crate::leto::leader_context::{before_first, can_rotate, starts, Rotation, START_ID};
use crate::leto::protocol::{
    certificates_needed, covers, is_signed_by, BlameStep, LetoAction, LetoState,
};
use crate::leto::quorum_waiter::{WaitState, WaitStep};
use crate::leto::round_context::{at_round, retains, ContextView};
use crate::leto::synchronizer::{
    asked_of, from_round, is_new, noted, relay_of, route, Asked, HelperRequest, HelperState, RelayMsg, SyncRoute,
    SyncState, SynchronizerMsg, Waiting,
};
use crate::leto::types::ProtocolMsg;
use crate::types::{signers, Batch, Certificate, Proposal, Signature};
use std::sync::Arc;
use vstd::prelude::*;

verus! {

/// A turn of the rotation: whoever was next leads and sits out first, the one that has sat out longest
/// is eligible again, the others keep their places, and the one that was drawn comes next.
pub proof fn law_turn(s: Rotation, drawn: usize)
    requires
        s.history.len() >= 1,
        s.round < u64::MAX,
    ensures
        ({
            let e = s.turned(drawn);
            &&& e.round == s.round + 1
            &&& e.current == s.next
            &&& e.next == drawn
            &&& e.history.len() == s.history.len()
            &&& e.history[0] == s.next
            &&& forall|i: int| 1 <= i < e.history.len() ==> #[trigger] e.history[i] == s.history[i - 1]
            &&& forall|a: usize|
                #[trigger] e.eligible.contains(a) <==> a != s.next && (s.eligible.contains(a) || a == s.history[s.history.len()
                    - 1])
            &&& e.eligible == s.eligible_next()
        }),
{
    assert(s.history[s.history.len() - 1] == s.history.last());
}

/// Several turns are that many single ones: the round counts them, and one turn on the next leader
/// leads.
pub proof fn law_turns_add_up(s: Rotation, turns: nat, end: Rotation)
    requires
        s.reaches(turns, end),
        s.round + turns <= u64::MAX,
    ensures
        end.round == s.round + turns,
        end.history.len() == s.history.len() || s.history.len() == 0,
        turns == 0 ==> end == s,
        turns == 1 ==> end.current == s.next && s.eligible_next().contains(end.next) && end == s.turned(end.next),
        turns > 0 ==> exists|drawn: usize|
            #[trigger] s.eligible_next().contains(drawn) && s.turned(drawn).reaches((turns - 1) as nat, end),
    decreases turns,
{
    if turns > 0 {
        let drawn = choose|drawn: usize|
            #[trigger] s.eligible_next().contains(drawn) && s.turned(drawn).reaches((turns - 1) as nat, end);
        law_turns_add_up(s.turned(drawn), (turns - 1) as nat, end);
    }
}

/// Every single turn can be part of several.
pub proof fn law_turns_start_with_any_draw(s: Rotation, drawn: usize, turns: nat, end: Rotation)
    requires
        s.eligible_next().contains(drawn),
        s.turned(drawn).reaches(turns, end),
    ensures
        s.reaches(turns + 1, end),
        s.may_lead(turns + 1, end.current),
{
    assert(s.turned(drawn).reaches(((turns + 1) - 1) as nat, end));
}

/// Who may lead one turn on is whoever is next.
pub proof fn law_next_leader_is_known(s: Rotation, id: usize)
    requires
        s.may_lead(1, id),
        s.round < u64::MAX,
    ensures
        id == s.next,
{
    let end = choose|end: Rotation| #[trigger] s.reaches(1, end) && end.current == id;
    law_turns_add_up(s, 1, end);
}

/// A committee of distinct ids rotates if its quorum leaves somebody out; and it does where the quorum
/// is all of it, if the first leader stands neither first nor last. No other one does.
pub proof fn law_which_committees_rotate(all_ids: Seq<usize>, num_faults: usize)
    requires
        all_ids.len() + num_faults < usize::MAX,
    ensures
        ({
            let limit = (all_ids.len() + num_faults + 1) / 2;
            &&& can_rotate(all_ids, num_faults) <==> {
                &&& all_ids.no_duplicates()
                &&& 1 <= limit <= all_ids.len()
                &&& limit == all_ids.len() ==> all_ids[0] != START_ID && all_ids[all_ids.len() - 1] != START_ID
            }
        }),
{
}

/// How a rotation starts: node 0 leads round 0 and sits out first. Of a quorum of the ids, the ones at
/// the end of the list, all but the last sit out behind it, in the order of the list; the others are
/// eligible.
pub proof fn law_first_turn(all_ids: Seq<usize>, num_faults: usize, r: Rotation)
    requires
        can_rotate(all_ids, num_faults),
        starts(all_ids, num_faults, r),
    ensures
        ({
            let n = all_ids.len() as int;
            let limit = (n + num_faults + 1) / 2;
            &&& r.round == 0
            &&& r.current == 0
            &&& r.history.len() == limit
            &&& r.history[0] == 0
            &&& forall|i: int| 1 <= i < limit ==> #[trigger] r.history[i] == all_ids[n - limit + i - 1]
            &&& forall|a: usize| #[trigger] r.eligible.contains(a) <==> a != 0 && (all_ids.take(n - limit).contains(a) || a
                == all_ids[n - 1])
            &&& r.eligible.contains(r.next)
        }),
{
    let n = all_ids.len() as int;
    let limit = (n + num_faults + 1) / 2;
    let b = before_first(all_ids, num_faults);
    assert(b.history.last() == all_ids[n - 1]);
    assert forall|i: int| 1 <= i < limit implies #[trigger] r.history[i] == all_ids[n - limit + i - 1] by {}
}

/// The round that a message belongs to is the one it names.
pub proof fn law_round_of_a_message<Tx>(msg: ProtocolMsg<Tx>)
    ensures
        msg matches ProtocolMsg::Propose { proposal, .. } ==> msg.spec_round() == Some(proposal.round),
        msg matches ProtocolMsg::Blame { round, .. } ==> msg.spec_round() == Some(round),
        msg matches ProtocolMsg::BlameQC { round, .. } ==> msg.spec_round() == Some(round),
        msg.spec_round() is Some ==> msg is Propose || msg is Blame || msg is BlameQC,
{
}

/// A message of a round that comes in is not lost: one of the current round is ready behind the others,
/// one of a later round waits for it behind those of its kind, and only one of a round that is over is
/// dropped. Nothing else changes.
pub proof fn law_synced_message_is_kept<Tx>(s: ContextView<Tx>, msg: ProtocolMsg<Tx>)
    requires
        msg.spec_round() is Some,
    ensures
        ({
            let e = s.synced(msg);
            let m = msg.spec_round()->0;
            let held = |lists: Map<u64, Seq<ProtocolMsg<Tx>>>|
                if lists.contains_key(m) {
                    lists[m]
                } else {
                    Seq::empty()
                };
            &&& m < s.round ==> e == s
            &&& m == s.round ==> e == (ContextView { ready: s.ready.push(msg), ..s })
            &&& m > s.round && msg is Propose ==> e == (ContextView {
                proposals: s.proposals.insert(m, held(s.proposals).push(msg)),
                ..s
            })
            &&& m > s.round && msg is Blame ==> e == (ContextView {
                blames: s.blames.insert(m, held(s.blames).push(msg)),
                ..s
            })
            &&& m > s.round && msg is BlameQC ==> e == (ContextView {
                qcs: s.qcs.insert(m, held(s.qcs).push(msg)),
                ..s
            })
        }),
{
}

/// The next round starts clean and with its timer running, with all that waited for it and nothing
/// else ready: first the proposals, then the certificates, then the blames, each kind in the order it
/// came. What waits for other rounds waits on, and messages under way are given up only once they are
/// two rounds per node old.
pub proof fn law_next_round_context<Tx>(s: ContextView<Tx>)
    requires
        s.round < u64::MAX,
        2 * s.num_nodes <= u64::MAX,
    ensures
        ({
            let e = s.advanced();
            let next = (s.round + 1) as u64;
            let p = if s.proposals.contains_key(next) {
                s.proposals[next]
            } else {
                Seq::empty()
            };
            let q = if s.qcs.contains_key(next) {
                s.qcs[next]
            } else {
                Seq::empty()
            };
            let b = if s.blames.contains_key(next) {
                s.blames[next]
            } else {
                Seq::empty()
            };
            &&& e.round == next
            &&& e.num_nodes == s.num_nodes
            &&& e.ready == p + q + b
            &&& e.proposals == s.proposals.remove(next)
            &&& e.qcs == s.qcs.remove(next)
            &&& e.blames == s.blames.remove(next)
            &&& e.blame_map == Map::<usize, Arc<Signature>>::empty()
            &&& !e.got_qc
            &&& e.timer_enabled
            &&& forall|r: u64|
                #[trigger] e.handlers.contains_key(r) <==> s.handlers.contains_key(r) && (next <= 2 * s.num_nodes || r
                    + 2 * s.num_nodes > next)
            &&& forall|r: u64| #[trigger] e.handlers.contains_key(r) ==> e.handlers[r] == s.handlers[r]
        }),
{
}

/// A message under way is given up exactly once it is two rounds per node old, and none is in the
/// first rounds.
pub proof fn law_when_handlers_go(handler_round: u64, current_round: u64, num_nodes: usize)
    ensures
        retains(handler_round, current_round, num_nodes) <==> current_round <= 2 * num_nodes || handler_round + 2
            * num_nodes > current_round,
        forall|m: Map<u64, Seq<u64>>| #[trigger] at_round(m, current_round) == (if m.contains_key(current_round) {
            m[current_round]
        } else {
            Seq::empty()
        }),
{
}

/// The relay of a correct proposal goes to whoever leads once the round has advanced, whatever the
/// chain is by then and whoever is drawn next, and carries the proposal under this node's name. There is
/// none exactly if that leader is this node.
pub proof fn law_relay_reaches_the_next_leader<Tx>(
    s: LetoState<Tx>,
    proposal: Arc<Proposal>,
    auth: Arc<Signature>,
    batch_hash: Digest,
    tip: ChainTip,
    drawn: usize,
)
    ensures
        ({
            let r = s.relay(proposal, auth, batch_hash);
            let leader = (LetoState { tip, ..s }).advanced(drawn).rotation.current;
            &&& r is None <==> leader == s.my_id
            &&& r is Some ==> r->0 == (LetoAction::Send {
                to: leader,
                msg: ProtocolMsg::<Tx>::Relay { proposal, auth, batch_hash, sender: s.my_id },
            })
        }),
{
}

/// The next round of a node: one round on, led by whoever was next, with the same chain.
pub proof fn law_node_moves_on<Tx>(s: LetoState<Tx>, drawn: usize)
    requires
        s.ctx.round < u64::MAX,
    ensures
        ({
            let e = s.advanced(drawn);
            &&& e.ctx.round == s.ctx.round + 1
            &&& e.ctx == s.ctx.advanced()
            &&& e.rotation == s.rotation.turned(drawn)
            &&& e.rotation.current == s.rotation.next
            &&& e.rotation.next == drawn
            &&& e.tip == s.tip
            &&& e.my_id == s.my_id && e.known == s.known && e.num_nodes == s.num_nodes && e.num_faults == s.num_faults
        }),
{
}

/// A proposal carries one certificate for each round since the highest element, the earliest first, and
/// can be made exactly if there is one for each.
pub proof fn law_skipped_rounds_are_certified<Tx>(s: LetoState<Tx>)
    requires
        s.ctx.round >= 1,
    ensures
        s.skipped().len() == (if s.ctx.round > s.tip.highest_round + 1 {
            s.ctx.round - s.tip.highest_round - 1
        } else {
            0
        }),
        forall|i: int|
            0 <= i < s.skipped().len() ==> #[trigger] s.skipped()[i] == s.tip.qcs[(s.tip.highest_round + 1 + i) as u64],
        s.can_propose() <==> forall|r: u64|
            s.tip.highest_round < r < s.ctx.round ==> #[trigger] s.tip.qcs.contains_key(r),
{
}

/// A round ended by blame: the certificate goes to everybody and is kept under its round, the node is
/// in the next round, and the chain stays as it is.
pub proof fn law_blamed_round_ends<Tx>(
    s: LetoState<Tx>,
    round: u64,
    qc: Arc<Certificate>,
    end: LetoState<Tx>,
    step: BlameStep<Tx>,
)
    requires
        s.ctx.round < u64::MAX,
        s.ended(round, qc, end, step),
    ensures
        step matches BlameStep::Advanced { broadcast, round: next } && broadcast == LetoAction::Broadcast(
            ProtocolMsg::<Tx>::BlameQC { round, qc },
        ) && next.round == s.ctx.round + 1 && next.leader == s.rotation.next,
        end.ctx.round == s.ctx.round + 1,
        end.rotation.current == s.rotation.next,
        s.rotation.eligible_next().contains(end.rotation.next),
        end.rotation == s.rotation.turned(end.rotation.next),
        end.tip.qcs == s.tip.qcs.insert(round, qc),
        end.tip.highest_hash == s.tip.highest_hash,
        end.tip.highest_round == s.tip.highest_round,
        end.ctx == (ContextView { got_qc: true, ..s.ctx }).advanced(),
        end.my_id == s.my_id && end.known == s.known && end.num_nodes == s.num_nodes && end.num_faults == s.num_faults,
{
}

/// As many blames make a certificate as a quorum has nodes.
pub proof fn law_blame_quorum<Tx>(s: LetoState<Tx>)
    requires
        s.num_nodes + s.num_faults < usize::MAX,
    ensures
        s.num_nodes + s.num_faults <= 2 * s.qc_len() <= s.num_nodes + s.num_faults + 1,
{
}

proof fn lemma_covers_from(
    round: u64,
    parent_round: u64,
    idx: int,
    qc: Option<Vec<Arc<Certificate>>>,
    verified: Seq<bool>,
    qc_len: nat,
    num_faults: usize,
)
    requires
        round > parent_round,
        0 <= idx <= round - parent_round - 1,
    ensures
        ({
            let n = round - parent_round - 1;
            covers(round, parent_round + 1 + idx, idx, qc, verified, qc_len, num_faults) <==> idx == n || {
                &&& qc is Some
                &&& n <= qc->0@.len()
                &&& n <= verified.len()
                &&& n <= num_faults + 1
                &&& forall|i: int| idx <= i < n ==> #[trigger] verified[i]
                &&& forall|i: int| idx <= i < n ==> #[trigger] is_signed_by(qc->0@[i], qc_len)
            }
        }),
    decreases round - parent_round - idx,
{
    let n = round - parent_round - 1;
    if idx < n {
        if qc is Some && idx < qc->0@.len() && idx < verified.len() && idx <= num_faults {
            lemma_covers_from(round, parent_round, idx + 1, qc, verified, qc_len, num_faults);
            let here = verified[idx] && is_signed_by(qc->0@[idx], qc_len);
            if here {
                if idx + 1 == n {
                    assert forall|i: int| idx <= i < n implies #[trigger] verified[i] by {
                        assert(i == idx);
                    }
                    assert forall|i: int| idx <= i < n implies #[trigger] is_signed_by(qc->0@[i], qc_len) by {
                        assert(i == idx);
                    }
                } else if covers(round, parent_round + 1 + idx + 1, idx + 1, qc, verified, qc_len, num_faults) {
                    assert forall|i: int| idx <= i < n implies #[trigger] verified[i] by {
                        if i > idx {
                            assert(verified[i]);
                        }
                    }
                    assert forall|i: int| idx <= i < n implies #[trigger] is_signed_by(qc->0@[i], qc_len) by {
                        if i > idx {
                            assert(is_signed_by(qc->0@[i], qc_len));
                        }
                    }
                }
            }
        }
    }
}

/// A proposal above its parent is valid exactly if it directly follows it, or has a verified certificate
/// of the right size for each round between, at most one more of them than there may be faults.
pub proof fn law_when_a_proposal_is_valid(
    round: u64,
    parent_round: u64,
    qc: Option<Vec<Arc<Certificate>>>,
    verified: Seq<bool>,
    qc_len: nat,
    num_faults: usize,
)
    requires
        round > parent_round,
    ensures
        ({
            let n = round - parent_round - 1;
            covers(round, parent_round + 1, 0, qc, verified, qc_len, num_faults) <==> n == 0 || {
                &&& qc is Some
                &&& n <= qc->0@.len()
                &&& n <= verified.len()
                &&& n <= num_faults + 1
                &&& forall|i: int| 0 <= i < n ==> #[trigger] verified[i]
                &&& forall|i: int| 0 <= i < n ==> #[trigger] is_signed_by(qc->0@[i], qc_len)
            }
        }),
        round - parent_round - 1 <= num_faults + 1 ==> certificates_needed(round, parent_round, num_faults) == round
            - parent_round - 1,
        round - parent_round - 1 > num_faults + 1 ==> certificates_needed(round, parent_round, num_faults) == num_faults
            + 2,
{
    lemma_covers_from(round, parent_round, 0, qc, verified, qc_len, num_faults);
}

/// A certificate is of the right size by the number of nodes that signed it, each counted once.
pub proof fn law_signers_count_once(certificate: Arc<Certificate>, qc_len: nat, id: usize)
    ensures
        is_signed_by(certificate, qc_len) <==> signers(certificate.sigs@).len() == qc_len,
        signers(certificate.sigs@).contains(id) <==> exists|i: int|
            0 <= i < certificate.sigs@.len() && (#[trigger] certificate.sigs@[i]).signer == id,
{
}

/// A proposal goes to the protocol, as it came, once its parent is here, and to storage with it. One
/// whose parent is missing waits for the parent that it names, with its batch.
pub proof fn law_proposals_are_delivered<Tx>(
    proposal: Arc<Proposal>,
    auth: Arc<Signature>,
    batch: Arc<Batch<Tx>>,
    sender: usize,
    found: Option<Arc<Batch<Tx>>>,
)
    ensures
        ({
            let msg = ProtocolMsg::Propose { proposal, auth, batch, sender };
            &&& route(msg, found, true) == SyncRoute::StoreAndDeliver(msg)
            &&& route(msg, found, false) == SyncRoute::Lacks(
                SynchronizerMsg::DeliverParentOnly {
                    parent_hash: proposal.block.parent_hash,
                    sender,
                    proposal,
                    auth,
                    batch,
                },
            )
        }),
{
}

/// A relayed proposal becomes a proposal with the batch that it names once that and its parent are
/// here, and waits for exactly what is missing.
pub proof fn law_relays_are_delivered<Tx>(
    proposal: Arc<Proposal>,
    auth: Arc<Signature>,
    batch_hash: Digest,
    sender: usize,
    batch: Arc<Batch<Tx>>,
)
    ensures
        ({
            let msg = ProtocolMsg::<Tx>::Relay { proposal, auth, batch_hash, sender };
            &&& route(msg, Some(batch), true) == SyncRoute::Deliver(
                ProtocolMsg::Propose { proposal, auth, batch, sender },
            )
            &&& route(msg, Some(batch), false) == SyncRoute::Lacks(
                SynchronizerMsg::DeliverParentOnly {
                    parent_hash: proposal.block.parent_hash,
                    sender,
                    proposal,
                    auth,
                    batch,
                },
            )
            &&& route(msg, None, true) == SyncRoute::<Tx>::Lacks(
                SynchronizerMsg::DeliverBatchOnly { batch_hash, sender, proposal, auth },
            )
            &&& route(msg, None, false) == SyncRoute::<Tx>::Lacks(
                SynchronizerMsg::DeliverParentAndBatch { batch_hash, sender, proposal, auth },
            )
        }),
{
}

/// Requests go to the helper with all they hold, answers to storage, and blames and certificates to the
/// protocol as they came, whatever is here.
pub proof fn law_other_messages_are_routed<Tx>(
    msg: ProtocolMsg<Tx>,
    found: Option<Arc<Batch<Tx>>>,
    parent_known: bool,
)
    ensures
        ({
            let r = route(msg, found, parent_known);
            &&& msg is Blame || msg is BlameQC ==> r == SyncRoute::Deliver(msg)
            &&& msg matches ProtocolMsg::BatchRequest { source, request_hash } ==> r == SyncRoute::<Tx>::Help(
                HelperRequest::BatchRequest { source, request_hash },
            )
            &&& msg matches ProtocolMsg::ElementRequest { source, request_hash } ==> r == SyncRoute::<Tx>::Help(
                HelperRequest::ElementRequest { source, request_hash },
            )
            &&& msg matches ProtocolMsg::BatchResponse { batch, .. } ==> r == SyncRoute::StoreBatch(batch)
            &&& msg matches ProtocolMsg::ElementResponse { element, .. } ==> r == SyncRoute::StoreElement(element)
        }),
{
}

/// Whether a node has been asked for a digest in a round: only once it has, and for as long as the round
/// is not over.
pub proof fn law_who_was_asked_for_what(m: Asked, k: (usize, u64), h: Digest, o: (usize, u64), g: Digest, min: u64)
    ensures
        is_new(m, k, h) <==> !(m.contains_key(k) && m[k].contains(h)),
        asked_of(noted(m, k, h), o).contains(g) <==> asked_of(m, o).contains(g) || (o == k && g == h),
        !is_new(noted(m, k, h), k, h),
        asked_of(from_round(m, min), o).contains(g) <==> asked_of(m, o).contains(g) && o.1 >= min,
{
}

/// A proposal that lacks its batch: the first one in a round asks the node that sent it for that batch,
/// and waits for it. Later ones from that node in that round do neither.
pub proof fn law_missing_batch_is_fetched<Tx>(
    s: HelperState,
    batch_hash: Digest,
    sender: usize,
    proposal: Arc<Proposal>,
    auth: Arc<Signature>,
)
    ensures
        ({
            let msg = SynchronizerMsg::<Tx>::DeliverBatchOnly { batch_hash, sender, proposal, auth };
            let r = s.step(msg);
            let asked = s.relays.contains_key((sender, s.round)) && s.relays[(sender, s.round)].contains(batch_hash);
            &&& asked ==> r.request is None && r.wait is None
            &&& !asked ==> r.request == Some(
                (sender, ProtocolMsg::<Tx>::BatchRequest { source: s.my_id, request_hash: batch_hash }),
            )
            &&& !asked ==> r.wait == Some(
                Waiting::<Tx> { parent: None, batch: Err(batch_hash), proposal, auth, sender },
            )
            &&& s.after(msg).relays.contains_key((sender, s.round))
            &&& s.after(msg).relays[(sender, s.round)].contains(batch_hash)
            &&& s.after(msg).elements == s.elements && s.after(msg).round == s.round && s.after(msg).my_id == s.my_id
        }),
{
}

/// A proposal that lacks its parent: the first one in a round asks the node that sent it for the parent,
/// and waits for the parent that the proposal names.
pub proof fn law_missing_parent_is_fetched<Tx>(
    s: HelperState,
    parent_hash: Digest,
    sender: usize,
    proposal: Arc<Proposal>,
    auth: Arc<Signature>,
    batch: Arc<Batch<Tx>>,
)
    ensures
        ({
            let msg = SynchronizerMsg::DeliverParentOnly { parent_hash, sender, proposal, auth, batch };
            let r = s.step(msg);
            let asked = s.elements.contains_key((sender, s.round)) && s.elements[(sender, s.round)].contains(parent_hash);
            &&& asked ==> r.request is None && r.wait is None
            &&& !asked ==> r.request == Some(
                (sender, ProtocolMsg::<Tx>::ElementRequest { source: s.my_id, request_hash: parent_hash }),
            )
            &&& !asked ==> r.wait == Some(
                Waiting {
                    parent: Some(proposal.block.parent_hash),
                    batch: Ok(batch),
                    proposal,
                    auth,
                    sender,
                },
            )
            &&& s.after(msg).elements.contains_key((sender, s.round))
            &&& s.after(msg).elements[(sender, s.round)].contains(parent_hash)
            &&& s.after(msg).relays == s.relays && s.after(msg).round == s.round && s.after(msg).my_id == s.my_id
        }),
{
}

/// A proposal that lacks both waits for both in any case, and the batch is asked for once.
pub proof fn law_missing_both_are_waited_for<Tx>(
    s: HelperState,
    batch_hash: Digest,
    sender: usize,
    proposal: Arc<Proposal>,
    auth: Arc<Signature>,
)
    ensures
        ({
            let msg = SynchronizerMsg::<Tx>::DeliverParentAndBatch { batch_hash, sender, proposal, auth };
            let r = s.step(msg);
            let asked = s.relays.contains_key((sender, s.round)) && s.relays[(sender, s.round)].contains(batch_hash);
            &&& asked ==> r.request is None
            &&& !asked ==> r.request == Some(
                (sender, ProtocolMsg::<Tx>::BatchRequest { source: s.my_id, request_hash: batch_hash }),
            )
            &&& r.wait == Some(
                Waiting::<Tx> {
                    parent: Some(proposal.block.parent_hash),
                    batch: Err(batch_hash),
                    proposal,
                    auth,
                    sender,
                },
            )
            &&& s.after(msg).relays.contains_key((sender, s.round))
            &&& s.after(msg).relays[(sender, s.round)].contains(batch_hash)
            &&& s.after(msg).elements == s.elements && s.after(msg).round == s.round && s.after(msg).my_id == s.my_id
        }),
{
}

/// A new round forgets what was asked for in earlier ones and keeps the rest; it asks for nothing, and
/// the helper does not go back.
pub proof fn law_helper_follows_the_rounds<Tx>(s: HelperState, new_round: u64, k: (usize, u64))
    ensures
        ({
            let msg = SynchronizerMsg::<Tx>::AdvanceRound(new_round);
            let e = s.after(msg);
            &&& s.step(msg).request is None && s.step(msg).wait is None
            &&& new_round < s.round ==> e == s
            &&& new_round >= s.round ==> e.round == new_round && e.my_id == s.my_id
            &&& new_round >= s.round ==> (e.relays.contains_key(k) <==> s.relays.contains_key(k) && k.1 >= new_round)
            &&& new_round >= s.round ==> (e.elements.contains_key(k) <==> s.elements.contains_key(k) && k.1 >= new_round)
            &&& e.relays.contains_key(k) ==> e.relays[k] == s.relays[k]
            &&& e.elements.contains_key(k) ==> e.elements[k] == s.elements[k]
        }),
{
}

/// A relay that waited for its batch is handled again as it came, under the name of the node that
/// relayed it.
pub proof fn law_waiting_relay_comes_back<Tx>(m: RelayMsg, s: SyncState, batch_hash: Digest)
    ensures
        relay_of::<Tx>(m) == (ProtocolMsg::<Tx>::Relay {
            proposal: m.proposal,
            auth: m.auth,
            batch_hash: m.batch_hash,
            sender: m.source,
        }),
        s.relays.contains_key(batch_hash) ==> s.on(batch_hash) == s.relays[batch_hash],
        !s.relays.contains_key(batch_hash) ==> s.on(batch_hash).dom() == Set::<usize>::empty(),
{
}

/// A wait goes on exactly as long as receipts are missing and sends are under way; each send that is
/// over counts once, and as a receipt only if it is one.
pub proof fn law_wait_counts_receipts(s: WaitState, ok: bool)
    requires
        s.outstanding > 0,
        s.success < usize::MAX,
    ensures
        s.heard(ok).outstanding == s.outstanding - 1,
        s.heard(ok).success == s.success + (if ok {
            1int
        } else {
            0
        }),
        s.heard(ok).threshold == s.threshold,
        s.step() == WaitStep::Enough <==> s.success >= s.threshold,
        s.step() == WaitStep::Waiting <==> s.success < s.threshold,
{
}

/// A wait whose sends are all over has failed if receipts are missing, and says how many came.
pub proof fn law_wait_fails_at_the_end(s: WaitState)
    requires
        s.outstanding == 0,
        s.success < s.threshold,
    ensures
        s.step() == WaitStep::TooFew(s.success),
{
}

proof fn lemma_covers_no_way_back(
    round: u64,
    start: int,
    idx: int,
    qc: Option<Vec<Arc<Certificate>>>,
    verified: Seq<bool>,
    qc_len: nat,
    num_faults: usize,
)
    requires
        round < start,
        0 <= idx,
    ensures
        !covers(round, start, idx, qc, verified, qc_len, num_faults),
    decreases num_faults + 2 - idx,
{
    if idx <= num_faults {
        lemma_covers_no_way_back(round, start + 1, idx + 1, qc, verified, qc_len, num_faults);
    }
}

/// A proposal that is not above its parent is never valid, whatever certificates it has.
pub proof fn law_proposal_must_be_above_its_parent(
    round: u64,
    parent_round: u64,
    qc: Option<Vec<Arc<Certificate>>>,
    verified: Seq<bool>,
    qc_len: nat,
    num_faults: usize,
)
    requires
        round <= parent_round,
    ensures
        !covers(round, parent_round + 1, 0, qc, verified, qc_len, num_faults),
        certificates_needed(round, parent_round, num_faults) == num_faults + 2,
{
    lemma_covers_no_way_back(round, parent_round + 1, 0, qc, verified, qc_len, num_faults);
}

/// A node starts in round 1 with its timer running, and nothing has come for any round.
pub proof fn law_first_round_context<Tx>(num_nodes: usize, r: u64, id: usize)
    ensures
        ({
            let s = ContextView::<Tx>::fresh(num_nodes);
            &&& s.round == 1 && s.num_nodes == num_nodes && s.timer_enabled && !s.got_qc
            &&& s.ready.len() == 0
            &&& !s.proposals.contains_key(r) && !s.blames.contains_key(r) && !s.qcs.contains_key(r)
            &&& !s.handlers.contains_key(r)
            &&& !s.blame_map.contains_key(id)
        }),
{
}

/// A node can move on unless its round or its rotation is at the machine's limit.
pub proof fn law_only_limits_stop_a_node<Tx>(s: LetoState<Tx>)
    ensures
        s.can_advance() <==> s.ctx.round < u64::MAX && s.rotation.round < u64::MAX,
{
}

} // verus!
