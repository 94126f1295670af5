//! Delivery: a proposal is handled only once its batch and its parent are here.
use crate::digest::{same_digest, Digest};
use crate::fnv_map::{map_contains, map_get, map_insert, map_keys, map_remove, set_insert};
use crate::leto::protocol::INITIAL_ROUND;
use crate::leto::types::{Element, ProtocolMsg};
use crate::types::{share, Batch, Proposal, Signature};
use fnv::{FnvHashMap, FnvHashSet};
use std::sync::Arc;
use vstd::prelude::*;

verus! {

/// What the delivery of a proposal lacks.
pub enum SynchronizerMsg<Tx> {
    /// Only the batch.
    DeliverBatchOnly { batch_hash: Digest, sender: usize, proposal: Arc<Proposal>, auth: Arc<Signature> },
    /// Only the parent.
    DeliverParentOnly {
        parent_hash: Digest,
        sender: usize,
        proposal: Arc<Proposal>,
        auth: Arc<Signature>,
        batch: Arc<Batch<Tx>>,
    },
    /// The batch and the parent.
    DeliverParentAndBatch { batch_hash: Digest, sender: usize, proposal: Arc<Proposal>, auth: Arc<Signature> },
    /// A new round begins.
    AdvanceRound(u64),
}

/// A request that a peer serves from its storage.
pub enum HelperRequest {
    BatchRequest { source: usize, request_hash: Digest },
    ElementRequest { source: usize, request_hash: Digest },
}

/// Where a received message goes.
pub enum SyncRoute<Tx> {
    /// To the protocol.
    Deliver(ProtocolMsg<Tx>),
    /// To storage, as an element made of its parts, and then to the protocol.
    StoreAndDeliver(ProtocolMsg<Tx>),
    /// It waits for what it lacks.
    Lacks(SynchronizerMsg<Tx>),
    /// To the helper.
    Help(HelperRequest),
    /// The batch goes to storage.
    StoreBatch(Arc<Batch<Tx>>),
    /// The element goes to storage.
    StoreElement(Arc<Element<Tx>>),
}

/// Where a proposal goes, given whether its parent is here. Its batch is in storage by then.
pub open spec fn propose_route<Tx>(
    proposal: Arc<Proposal>,
    auth: Arc<Signature>,
    batch: Arc<Batch<Tx>>,
    sender: usize,
    parent_known: bool,
) -> SyncRoute<Tx> {
    if parent_known {
        SyncRoute::StoreAndDeliver(ProtocolMsg::Propose { proposal, auth, batch, sender })
    } else {
        SyncRoute::Lacks(
            SynchronizerMsg::DeliverParentOnly {
                parent_hash: proposal.block.parent_hash,
                sender,
                proposal,
                auth,
                batch,
            },
        )
    }
}

/// Where a relayed proposal goes, given what storage has of its batch and whether its parent is
/// here.
pub open spec fn relay_route<Tx>(
    proposal: Arc<Proposal>,
    auth: Arc<Signature>,
    batch_hash: Digest,
    sender: usize,
    found: Option<Arc<Batch<Tx>>>,
    parent_known: bool,
) -> SyncRoute<Tx> {
    match found {
        Some(batch) => if parent_known {
            SyncRoute::Deliver(ProtocolMsg::Propose { proposal, auth, batch, sender })
        } else {
            SyncRoute::Lacks(
                SynchronizerMsg::DeliverParentOnly {
                    parent_hash: proposal.block.parent_hash,
                    sender,
                    proposal,
                    auth,
                    batch,
                },
            )
        },
        None => if parent_known {
            SyncRoute::Lacks(SynchronizerMsg::DeliverBatchOnly { batch_hash, sender, proposal, auth })
        } else {
            SyncRoute::Lacks(SynchronizerMsg::DeliverParentAndBatch { batch_hash, sender, proposal, auth })
        },
    }
}

/// Where a message goes.
pub open spec fn route<Tx>(msg: ProtocolMsg<Tx>, found: Option<Arc<Batch<Tx>>>, parent_known: bool) -> SyncRoute<Tx> {
    match msg {
        ProtocolMsg::Propose { proposal, auth, batch, sender } => propose_route(
            proposal,
            auth,
            batch,
            sender,
            parent_known,
        ),
        ProtocolMsg::Relay { proposal, auth, batch_hash, sender } => relay_route(
            proposal,
            auth,
            batch_hash,
            sender,
            found,
            parent_known,
        ),
        ProtocolMsg::BatchRequest { source, request_hash } => SyncRoute::Help(
            HelperRequest::BatchRequest { source, request_hash },
        ),
        ProtocolMsg::ElementRequest { source, request_hash } => SyncRoute::Help(
            HelperRequest::ElementRequest { source, request_hash },
        ),
        ProtocolMsg::BatchResponse { batch, .. } => SyncRoute::StoreBatch(batch),
        ProtocolMsg::ElementResponse { element, .. } => SyncRoute::StoreElement(element),
        _ => SyncRoute::Deliver(msg),
    }
}

/// A proposal that waits: it is delivered once what it waits for is in storage.
pub struct Waiting<Tx> {
    /// Whether it waits for its parent.
    pub parent: Option<Digest>,
    /// The batch, or the digest that it waits for.
    pub batch: Result<Arc<Batch<Tx>>, Digest>,
    pub proposal: Arc<Proposal>,
    pub auth: Arc<Signature>,
    pub sender: usize,
}

impl<Tx> Waiting<Tx> {
    /// The proposal, once it has its batch.
    pub fn deliver(self, batch: Arc<Batch<Tx>>) -> (r: ProtocolMsg<Tx>)
        ensures
            r == (ProtocolMsg::Propose {
                proposal: self.proposal,
                auth: self.auth,
                batch,
                sender: self.sender,
            }),
    {
        ProtocolMsg::Propose { proposal: self.proposal, auth: self.auth, batch, sender: self.sender }
    }
}

/// What the lack of something leads to.
pub struct SyncStep<Tx> {
    /// What is asked for, and from whom.
    pub request: Option<(usize, ProtocolMsg<Tx>)>,
    pub wait: Option<Waiting<Tx>>,
}

/// What has been asked for, by the node asked and the round.
pub type Asked = Map<(usize, u64), Set<Digest>>;

/// What there is to know of the helper.
#[verifier::ext_equal]
pub struct HelperState {
    pub my_id: usize,
    pub round: u64,
    pub relays: Asked,
    pub elements: Asked,
}

/// What a node was asked for in a round.
pub open spec fn asked_of(m: Asked, k: (usize, u64)) -> Set<Digest> {
    if m.contains_key(k) {
        m[k]
    } else {
        Set::empty()
    }
}

/// Whether the digest is new for the node and round.
pub open spec fn is_new(m: Asked, k: (usize, u64), h: Digest) -> bool {
    !asked_of(m, k).contains(h)
}

/// The node was asked for the digest in the round.
pub open spec fn noted(m: Asked, k: (usize, u64), h: Digest) -> Asked {
    m.insert(k, asked_of(m, k).insert(h))
}

/// What belongs to rounds from `min` on.
pub open spec fn from_round(m: Asked, min: u64) -> Asked {
    m.restrict(Set::new(|k: (usize, u64)| k.1 >= min))
}

impl HelperState {
    /// The state after something lacked.
    pub open spec fn after<Tx>(self, msg: SynchronizerMsg<Tx>) -> Self {
        match msg {
            SynchronizerMsg::DeliverBatchOnly { batch_hash, sender, .. } => HelperState {
                relays: noted(self.relays, (sender, self.round), batch_hash),
                ..self
            },
            SynchronizerMsg::DeliverParentOnly { parent_hash, sender, .. } => HelperState {
                elements: noted(self.elements, (sender, self.round), parent_hash),
                ..self
            },
            SynchronizerMsg::DeliverParentAndBatch { batch_hash, sender, .. } => HelperState {
                relays: noted(self.relays, (sender, self.round), batch_hash),
                ..self
            },
            SynchronizerMsg::AdvanceRound(new_round) => if new_round < self.round {
                self
            } else {
                HelperState {
                    round: new_round,
                    relays: from_round(self.relays, new_round),
                    elements: from_round(self.elements, new_round),
                    ..self
                }
            },
        }
    }

    /// What the lack leads to: a first request for it in the round is sent to whoever sent the
    /// proposal. A proposal that lacks one thing waits only with the first request for it; one that
    /// lacks both waits in any case.
    pub open spec fn step<Tx>(self, msg: SynchronizerMsg<Tx>) -> SyncStep<Tx> {
        match msg {
            SynchronizerMsg::DeliverBatchOnly { batch_hash, sender, proposal, auth } => if is_new(
                self.relays,
                (sender, self.round),
                batch_hash,
            ) {
                SyncStep {
                    request: Some(
                        (sender, ProtocolMsg::BatchRequest { source: self.my_id, request_hash: batch_hash }),
                    ),
                    wait: Some(
                        Waiting { parent: None, batch: Err(batch_hash), proposal, auth, sender },
                    ),
                }
            } else {
                SyncStep { request: None, wait: None }
            },
            SynchronizerMsg::DeliverParentOnly { parent_hash, sender, proposal, auth, batch } => if is_new(
                self.elements,
                (sender, self.round),
                parent_hash,
            ) {
                SyncStep {
                    request: Some(
                        (sender, ProtocolMsg::ElementRequest { source: self.my_id, request_hash: parent_hash }),
                    ),
                    wait: Some(
                        Waiting {
                            parent: Some(proposal.block.parent_hash),
                            batch: Ok(batch),
                            proposal,
                            auth,
                            sender,
                        },
                    ),
                }
            } else {
                SyncStep { request: None, wait: None }
            },
            SynchronizerMsg::DeliverParentAndBatch { batch_hash, sender, proposal, auth } => SyncStep {
                request: if is_new(self.relays, (sender, self.round), batch_hash) {
                    Some((sender, ProtocolMsg::BatchRequest { source: self.my_id, request_hash: batch_hash }))
                } else {
                    None
                },
                wait: Some(
                    Waiting {
                        parent: Some(proposal.block.parent_hash),
                        batch: Err(batch_hash),
                        proposal,
                        auth,
                        sender,
                    },
                ),
            },
            SynchronizerMsg::AdvanceRound(_) => SyncStep { request: None, wait: None },
        }
    }
}

/// The helper that asks for what is lacking.
pub struct SyncHelper {
    my_id: usize,
    current_round: u64,
    pending_relays: FnvHashMap<(usize, u64), FnvHashSet<Digest>>,
    pending_elements: FnvHashMap<(usize, u64), FnvHashSet<Digest>>,
}

/// A map of sets by its contents.
pub open spec fn sets(m: Map<(usize, u64), FnvHashSet<Digest>>) -> Asked {
    m.map_values(|s: FnvHashSet<Digest>| s@)
}

/// Notes that a node is asked for a digest. `true` if that is new.
fn note(m: &mut FnvHashMap<(usize, u64), FnvHashSet<Digest>>, k: (usize, u64), h: Digest) -> (r: bool)
    ensures
        r == is_new(sets(old(m)@), k, h),
        sets(final(m)@) == noted(sets(old(m)@), k, h),
{
    let ghost start = sets(m@);
    let mut set: FnvHashSet<Digest> = match map_remove(m, &k) {
        Some(s) => s,
        None => FnvHashSet::default(),
    };
    assert(set@ =~= asked_of(start, k));
    let fresh: bool = set_insert(&mut set, h);
    map_insert(m, k, set);
    assert(sets(m@) =~= noted(start, k, h));
    fresh
}

/// Keeps what belongs to rounds from `min` on.
fn retain_rounds(m: &mut FnvHashMap<(usize, u64), FnvHashSet<Digest>>, min: u64)
    ensures
        sets(final(m)@) == from_round(sets(old(m)@), min),
{
    let ghost start = m@;
    let keys = map_keys(m);
    let mut i: usize = 0;
    while i < keys.len()
        invariant
            i <= keys@.len(),
            keys@.no_duplicates(),
            keys@.to_set() == start.dom(),
            start == old(m)@,
            m@.submap_of(start),
            forall|j: int| 0 <= j < keys@.len() ==> (m@.contains_key(#[trigger] keys@[j]) <==> j >= i || keys@[j].1 >= min),
        decreases keys@.len() - i,
    {
        let k: (usize, u64) = keys[i];
        if k.1 < min {
            map_remove(m, &k);
        }
        i += 1;
    }
    proof {
        let kept = from_round(sets(start), min);
        assert forall|k: (usize, u64)| sets(m@).contains_key(k) <==> #[trigger] kept.contains_key(k) by {
            if start.contains_key(k) {
                assert(keys@.to_set().contains(k));
                let j = choose|j: int| 0 <= j < keys@.len() && keys@[j] == k;
                assert(keys@[j] == k);
            }
        }
        assert(sets(m@) =~= kept);
    }
}

impl SyncHelper {
    pub closed spec fn view(&self) -> HelperState {
        HelperState {
            my_id: self.my_id,
            round: self.current_round,
            relays: sets(self.pending_relays@),
            elements: sets(self.pending_elements@),
        }
    }

    pub fn new(my_id: usize) -> (r: Self)
        ensures
            r@ == (HelperState { my_id, round: INITIAL_ROUND, relays: Map::empty(), elements: Map::empty() }),
    {
        let r = SyncHelper {
            my_id,
            current_round: INITIAL_ROUND,
            pending_relays: FnvHashMap::default(),
            pending_elements: FnvHashMap::default(),
        };
        assert(r@.relays =~= Map::empty());
        assert(r@.elements =~= Map::empty());
        r
    }

    /// Something is lacking, or a new round begins.
    pub fn run<Tx>(&mut self, msg: SynchronizerMsg<Tx>) -> (r: SyncStep<Tx>)
        ensures
            r == old(self)@.step(msg),
            final(self)@ == old(self)@.after(msg),
    {
        let ghost start = self@;
        match msg {
            SynchronizerMsg::DeliverBatchOnly { batch_hash, sender, proposal, auth } => {
                if !note(&mut self.pending_relays, (sender, self.current_round), batch_hash) {
                    return SyncStep { request: None, wait: None };
                }
                SyncStep {
                    request: Some(
                        (sender, ProtocolMsg::BatchRequest { source: self.my_id, request_hash: batch_hash }),
                    ),
                    wait: Some(Waiting { parent: None, batch: Err(batch_hash), proposal, auth, sender }),
                }
            },
            SynchronizerMsg::DeliverParentOnly { parent_hash, sender, proposal, auth, batch } => {
                if !note(&mut self.pending_elements, (sender, self.current_round), parent_hash) {
                    return SyncStep { request: None, wait: None };
                }
                SyncStep {
                    request: Some(
                        (sender, ProtocolMsg::ElementRequest { source: self.my_id, request_hash: parent_hash }),
                    ),
                    wait: Some(
                        Waiting {
                            parent: Some(proposal.block.parent_hash),
                            batch: Ok(batch),
                            proposal,
                            auth,
                            sender,
                        },
                    ),
                }
            },
            SynchronizerMsg::DeliverParentAndBatch { batch_hash, sender, proposal, auth } => {
                let fresh: bool = note(&mut self.pending_relays, (sender, self.current_round), batch_hash);
                let request = if fresh {
                    Some((sender, ProtocolMsg::BatchRequest { source: self.my_id, request_hash: batch_hash }))
                } else {
                    None
                };
                SyncStep {
                    request,
                    wait: Some(
                        Waiting {
                            parent: Some(proposal.block.parent_hash),
                            batch: Err(batch_hash),
                            proposal,
                            auth,
                            sender,
                        },
                    ),
                }
            },
            SynchronizerMsg::AdvanceRound(new_round) => {
                if new_round >= self.current_round {
                    retain_rounds(&mut self.pending_relays, new_round);
                    retain_rounds(&mut self.pending_elements, new_round);
                    self.current_round = new_round;
                }
                SyncStep { request: None, wait: None }
            },
        }
    }
}

/// In one round, a node is asked for the same batch once.
pub proof fn law_batch_is_asked_for_once<Tx>(s: HelperState, msg: SynchronizerMsg<Tx>)
    requires
        msg is DeliverBatchOnly,
    ensures
        s.after(msg).step(msg).request is None,
        s.after(msg).step(msg).wait is None,
        s.after(msg).after(msg) == s.after(msg),
{
    if let SynchronizerMsg::DeliverBatchOnly { batch_hash, sender, proposal, auth } = msg {
        let k = (sender, s.round);
        let once = noted(s.relays, k, batch_hash);
        assert(asked_of(once, k) =~= asked_of(s.relays, k).insert(batch_hash));
        assert(asked_of(once, k).insert(batch_hash) =~= asked_of(once, k));
        assert(noted(once, k, batch_hash) =~= once);
    }
}

/// The round of the helper never goes back.
pub proof fn law_helper_round_rises<Tx>(s: HelperState, msg: SynchronizerMsg<Tx>)
    ensures
        s.after(msg).round >= s.round,
{
}

/// A relayed proposal that waits for its batch.
pub struct RelayMsg {
    pub proposal: Arc<Proposal>,
    pub auth: Arc<Signature>,
    pub batch_hash: Digest,
    pub source: usize,
}

/// What there is to know of the synchronizer.
#[verifier::ext_equal]
pub struct SyncState {
    /// The relayed proposals that wait for their batches, by batch and by the node that relayed them.
    pub relays: Map<Digest, Map<usize, RelayMsg>>,
    /// The batches that are waited for.
    pub pending: Set<Digest>,
}

impl SyncState {
    /// What waits for a batch.
    pub open spec fn on(self, batch_hash: Digest) -> Map<usize, RelayMsg> {
        if self.relays.contains_key(batch_hash) {
            self.relays[batch_hash]
        } else {
            Map::empty()
        }
    }
}

/// What waits for batches that are not here.
pub struct Synchronizer {
    relay_waiting: FnvHashMap<Digest, FnvHashMap<usize, RelayMsg>>,
    pending: FnvHashSet<Digest>,
}

impl Synchronizer {
    pub closed spec fn view(&self) -> SyncState {
        SyncState {
            relays: self.relay_waiting@.map_values(|m: FnvHashMap<usize, RelayMsg>| m@),
            pending: self.pending@,
        }
    }

    pub fn new() -> (r: Self)
        ensures
            r@ == (SyncState { relays: Map::empty(), pending: Set::empty() }),
    {
        let r = Synchronizer { relay_waiting: FnvHashMap::default(), pending: FnvHashSet::default() };
        assert(r@.relays =~= Map::empty());
        r
    }

    /// Finds where a message goes. `found` is what storage has under the batch digest of a relayed
    /// proposal, `parent_known` whether it has the parent of a proposal.
    pub fn sync_msg<Tx>(msg: ProtocolMsg<Tx>, found: Option<Arc<Batch<Tx>>>, parent_known: bool) -> (r: SyncRoute<Tx>)
        ensures
            r == route(msg, found, parent_known),
    {
        match msg {
            ProtocolMsg::Propose { proposal, auth, batch, sender } => {
                if parent_known {
                    SyncRoute::StoreAndDeliver(ProtocolMsg::Propose { proposal, auth, batch, sender })
                } else {
                    SyncRoute::Lacks(
                        SynchronizerMsg::DeliverParentOnly {
                            parent_hash: proposal.block.parent_hash,
                            sender,
                            proposal,
                            auth,
                            batch,
                        },
                    )
                }
            },
            ProtocolMsg::Relay { proposal, auth, batch_hash, sender } => Self::sync_relay_msg(
                proposal,
                auth,
                batch_hash,
                sender,
                found,
                parent_known,
            ),
            ProtocolMsg::BatchRequest { source, request_hash } => SyncRoute::Help(
                HelperRequest::BatchRequest { source, request_hash },
            ),
            ProtocolMsg::ElementRequest { source, request_hash } => SyncRoute::Help(
                HelperRequest::ElementRequest { source, request_hash },
            ),
            ProtocolMsg::BatchResponse { request_hash, batch } => SyncRoute::StoreBatch(batch),
            ProtocolMsg::ElementResponse { request_hash, element } => SyncRoute::StoreElement(element),
            ProtocolMsg::Blame { round, auth } => SyncRoute::Deliver(ProtocolMsg::Blame { round, auth }),
            ProtocolMsg::BlameQC { round, qc } => SyncRoute::Deliver(ProtocolMsg::BlameQC { round, qc }),
        }
    }

    fn sync_relay_msg<Tx>(
        proposal: Arc<Proposal>,
        auth: Arc<Signature>,
        batch_hash: Digest,
        sender: usize,
        found: Option<Arc<Batch<Tx>>>,
        parent_known: bool,
    ) -> (r: SyncRoute<Tx>)
        ensures
            r == relay_route(proposal, auth, batch_hash, sender, found, parent_known),
    {
        match found {
            Some(batch) => {
                if parent_known {
                    SyncRoute::Deliver(ProtocolMsg::Propose { proposal, auth, batch, sender })
                } else {
                    SyncRoute::Lacks(
                        SynchronizerMsg::DeliverParentOnly {
                            parent_hash: proposal.block.parent_hash,
                            sender,
                            proposal,
                            auth,
                            batch,
                        },
                    )
                }
            },
            None => {
                if parent_known {
                    SyncRoute::Lacks(SynchronizerMsg::DeliverBatchOnly { batch_hash, sender, proposal, auth })
                } else {
                    SyncRoute::Lacks(
                        SynchronizerMsg::DeliverParentAndBatch { batch_hash, sender, proposal, auth },
                    )
                }
            },
        }
    }

    /// A batch is asked for. `true` if nothing waits for it yet: a batch is waited for once, however
    /// often it is asked for.
    pub fn request_batch(&mut self, hash: Digest) -> (r: bool)
        ensures
            r == !old(self)@.pending.contains(hash),
            final(self)@ == (SyncState { pending: old(self)@.pending.insert(hash), ..old(self)@ }),
    {
        set_insert(&mut self.pending, hash)
    }

    /// A peer answered with a batch. `true` if it is the one that was asked for: `computed` is the
    /// digest of what came.
    pub fn on_batch_response(&self, request_hash: &Digest, computed: &Digest) -> (r: bool)
        ensures
            r == (*request_hash == *computed),
    {
        same_digest(request_hash, computed)
    }

    /// A relayed proposal has no batch here. `true` if the batch is to be asked for from the
    /// source; a second relay of the batch by the same source changes nothing.
    pub fn on_unknown_batch(
        &mut self,
        proposal: &Arc<Proposal>,
        auth: &Arc<Signature>,
        batch_hash: Digest,
        source: usize,
    ) -> (r: bool)
        ensures
            r == !old(self)@.on(batch_hash).contains_key(source),
            final(self)@ == (SyncState {
                relays: old(self)@.relays.insert(
                    batch_hash,
                    if r {
                        old(self)@.on(batch_hash).insert(
                            source,
                            RelayMsg { proposal: *proposal, auth: *auth, batch_hash, source },
                        )
                    } else {
                        old(self)@.on(batch_hash)
                    },
                ),
                ..old(self)@
            }),
    {
        let ghost start = self@;
        let mut line: FnvHashMap<usize, RelayMsg> = match map_remove(&mut self.relay_waiting, &batch_hash) {
            Some(m) => m,
            None => FnvHashMap::default(),
        };
        assert(line@ =~= start.on(batch_hash));
        let fresh: bool = !map_contains(&line, &source);
        if fresh {
            map_insert(
                &mut line,
                source,
                RelayMsg { proposal: share(proposal), auth: share(auth), batch_hash, source },
            );
        }
        map_insert(&mut self.relay_waiting, batch_hash, line);
        assert(self@.relays =~= start.relays.insert(batch_hash, line@));
        fresh
    }

    /// A batch is here: the relays that waited for it are handled again, in an order that is left
    /// open.
    pub fn on_batch_ready<Tx>(&mut self, batch_hash: &Digest) -> (r: Vec<ProtocolMsg<Tx>>)
        ensures
            final(self)@ == (SyncState { relays: old(self)@.relays.remove(*batch_hash), ..old(self)@ }),
            r@.len() == old(self)@.on(*batch_hash).dom().len(),
            forall|source: usize| #[trigger] old(self)@.on(*batch_hash).contains_key(source) ==> r@.contains(
                relay_of::<Tx>(old(self)@.on(*batch_hash)[source]),
            ),
    {
        let ghost start = self@;
        let ghost waiting = start.on(*batch_hash);
        let line: FnvHashMap<usize, RelayMsg> = match map_remove(&mut self.relay_waiting, batch_hash) {
            Some(m) => m,
            None => FnvHashMap::default(),
        };
        assert(line@ =~= waiting);
        assert(self@.relays =~= start.relays.remove(*batch_hash));
        let keys = map_keys(&line);
        let mut out: Vec<ProtocolMsg<Tx>> = Vec::new();
        let mut i: usize = 0;
        while i < keys.len()
            invariant
                i <= keys@.len(),
                keys@.to_set() == line@.dom(),
                out@.len() == i,
                forall|j: int| 0 <= j < i ==> #[trigger] out@[j] == relay_of::<Tx>(line@[keys@[j]]),
            decreases keys@.len() - i,
        {
            let k: usize = keys[i];
            assert(keys@.to_set().contains(k));
            if let Some(m) = map_get(&line, &k) {
                out.push(
                    ProtocolMsg::Relay {
                        proposal: share(&m.proposal),
                        auth: share(&m.auth),
                        batch_hash: m.batch_hash,
                        sender: m.source,
                    },
                );
            }
            i += 1;
        }
        proof {
            keys@.unique_seq_to_set();
            assert forall|source: usize| #[trigger] waiting.contains_key(source) implies out@.contains(
                relay_of::<Tx>(waiting[source]),
            ) by {
                assert(keys@.to_set().contains(source));
                let j = choose|j: int| 0 <= j < keys@.len() && keys@[j] == source;
                assert(out@[j] == relay_of::<Tx>(line@[keys@[j]]));
            }
        }
        out
    }

    /// A new round begins: no relay waits any more.
    pub fn advance_round(&mut self)
        ensures
            final(self)@ == (SyncState { relays: Map::empty(), ..old(self)@ }),
    {
        self.relay_waiting = FnvHashMap::default();
        assert(self@.relays =~= Map::empty());
    }
}

/// The message that handles a relay again.
pub open spec fn relay_of<Tx>(m: RelayMsg) -> ProtocolMsg<Tx> {
    ProtocolMsg::Relay { proposal: m.proposal, auth: m.auth, batch_hash: m.batch_hash, sender: m.source }
}

/// The answer to a request for a batch, if storage has it.
pub fn batch_response<Tx>(source: usize, request_hash: Digest, found: Option<Arc<Batch<Tx>>>) -> (r: Option<
    (usize, ProtocolMsg<Tx>),
>)
    ensures
        r == (match found {
            Some(batch) => Some((source, ProtocolMsg::BatchResponse { request_hash, batch })),
            None => None,
        }),
{
    match found {
        Some(batch) => Some((source, ProtocolMsg::BatchResponse { request_hash, batch })),
        None => None,
    }
}

/// The answer to a request for an element, if storage has it.
pub fn element_response<Tx>(source: usize, request_hash: Digest, found: Option<Arc<Element<Tx>>>) -> (r: Option<
    (usize, ProtocolMsg<Tx>),
>)
    ensures
        r == (match found {
            Some(element) => Some((source, ProtocolMsg::ElementResponse { request_hash, element })),
            None => None,
        }),
{
    match found {
        Some(element) => Some((source, ProtocolMsg::ElementResponse { request_hash, element })),
        None => None,
    }
}

} // verus!
