//! The messages under way to each peer.
use crate::fnv_map::{map_insert, map_remove};
use fnv::FnvHashMap;
use std::collections::VecDeque;
use vstd::prelude::*;

verus! {

/// No more messages than this are under way to one peer.
pub const MAX_CANCEL_HANDLERS_PER_PEER: usize = 1024;

/// The tickets of the messages under way, by peer, oldest first.
pub struct CancelHandlers {
    queues: FnvHashMap<usize, VecDeque<u64>>,
}

/// The queue of a peer after one more message: with too many under way the oldest one leaves.
pub open spec fn pushed(queue: Seq<u64>, ticket: u64) -> Seq<u64> {
    let all = queue.push(ticket);
    if all.len() > MAX_CANCEL_HANDLERS_PER_PEER {
        all.drop_first()
    } else {
        all
    }
}

/// No peer has too many messages under way.
pub open spec fn within_cap(under_way: Map<usize, Seq<u64>>) -> bool {
    forall|p: usize| #[trigger] under_way.contains_key(p) ==> under_way[p].len() <= MAX_CANCEL_HANDLERS_PER_PEER
}

impl CancelHandlers {
    pub closed spec fn view(&self) -> Map<usize, Seq<u64>> {
        self.queues@.map_values(|q: VecDeque<u64>| q@)
    }

    /// The messages under way to a peer.
    pub open spec fn queue(&self, peer: usize) -> Seq<u64> {
        if self@.contains_key(peer) {
            self@[peer]
        } else {
            Seq::empty()
        }
    }

    pub open spec fn wf(&self) -> bool {
        within_cap(self@)
    }

    pub fn new() -> (r: Self)
        ensures
            r.wf(),
            r@ == Map::<usize, Seq<u64>>::empty(),
    {
        let r = CancelHandlers { queues: FnvHashMap::default() };
        assert(r@ =~= Map::<usize, Seq<u64>>::empty());
        r
    }

    /// One more message is under way to the peer. Returns the ticket of the message that is given
    /// up for it, if there are too many.
    pub fn push_cancel_handler(&mut self, peer: usize, ticket: u64) -> (r: Option<u64>)
        requires
            old(self).wf(),
        ensures
            final(self).wf(),
            final(self)@ == old(self)@.insert(peer, pushed(old(self).queue(peer), ticket)),
            r == (if old(self).queue(peer).len() >= MAX_CANCEL_HANDLERS_PER_PEER {
                Some(old(self).queue(peer).push(ticket)[0])
            } else {
                None
            }),
    {
        let mut q: VecDeque<u64> = match map_remove(&mut self.queues, &peer) {
            Some(q) => q,
            None => VecDeque::new(),
        };
        assert(q@ =~= old(self).queue(peer));
        q.push_back(ticket);
        let ghost all = q@;
        let mut dropped: Option<u64> = None;
        if q.len() > MAX_CANCEL_HANDLERS_PER_PEER {
            dropped = q.pop_front();
            assert(all.subrange(1, all.len() as int) =~= all.drop_first());
        }
        map_insert(&mut self.queues, peer, q);
        assert(self@ =~= old(self)@.insert(peer, pushed(old(self).queue(peer), ticket)));
        dropped
    }
}

/// At most 1024 messages are under way to a peer: one more is last, and the oldest is given up for it
/// exactly if there were so many.
pub proof fn law_oldest_message_is_given_up(queue: Seq<u64>, ticket: u64)
    ensures
        queue.len() < 1024 ==> pushed(queue, ticket) == queue.push(ticket),
        queue.len() >= 1024 ==> pushed(queue, ticket) == queue.drop_first().push(ticket),
{
    if queue.len() >= 1024 {
        assert(pushed(queue, ticket) =~= queue.drop_first().push(ticket));
    }
}

/// The messages under way to a peer are those that are filed under it, and none are if none are filed.
pub proof fn law_messages_by_peer(h: CancelHandlers, peer: usize)
    ensures
        h@.contains_key(peer) ==> h.queue(peer) == h@[peer],
        !h@.contains_key(peer) ==> h.queue(peer).len() == 0,
{
}

} // verus!
