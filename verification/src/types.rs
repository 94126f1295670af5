//! The values that the protocols exchange.
use crate::digest::Digest;
use crate::fnv_map::{map_get, map_keys};
use fnv::FnvHashMap;
use std::sync::Arc;
use vstd::prelude::*;

verus! {

/// A transaction is named by its client and that client's sequence number.
pub type TxKey = (usize, u64);

/// What the pools and routers read of a transaction.
pub trait Transaction: Sized {
    /// The client that signed the transaction.
    open spec fn spec_client_id(&self) -> usize {
        arbitrary()
    }

    /// The client's sequence number for it.
    open spec fn spec_nonce(&self) -> u64 {
        arbitrary()
    }

    fn client_id(&self) -> (r: usize)
        ensures
            r == self.spec_client_id(),
    ;

    /// The time at which a benchmark client sent it, in nanoseconds, if it says so.
    open spec fn spec_hera_timestamp_ns(&self) -> Option<u128> {
        arbitrary()
    }

    fn nonce(&self) -> (r: u64)
        ensures
            r == self.spec_nonce(),
    ;

    fn hera_timestamp_ns(&self) -> (r: Option<u128>)
        ensures
            r == self.spec_hera_timestamp_ns(),
    ;
}

/// The name of a transaction.
pub open spec fn tx_key<Tx: Transaction>(tx: Tx) -> TxKey {
    (tx.spec_client_id(), tx.spec_nonce())
}

/// A sealed batch of transactions, in proposal order.
pub struct Batch<Tx> {
    pub payload: Vec<Arc<Tx>>,
}

/// `Arc::clone`: another handle to the same value.
#[verifier::external_body]
pub(crate) fn share<T>(a: &Arc<T>) -> (r: Arc<T>)
    ensures
        r == *a,
{
    Arc::clone(a)
}

/// A signature and the node that made it.
pub struct Signature {
    pub raw: Vec<u8>,
    pub signer: usize,
}

/// Signatures of several nodes on one statement.
pub struct Certificate {
    pub sigs: Vec<Arc<Signature>>,
}

/// The nodes that signed.
pub open spec fn signers(sigs: Seq<Arc<Signature>>) -> Set<usize> {
    Set::new(|id: usize| exists|i: int| 0 <= i < sigs.len() && (#[trigger] sigs[i]).signer == id)
}

impl Certificate {
    pub fn empty() -> (r: Self)
        ensures
            r.sigs@.len() == 0,
    {
        Certificate { sigs: Vec::new() }
    }

    /// Adds a signature.
    pub fn add_signature(&mut self, sig: Arc<Signature>)
        ensures
            final(self).sigs@ == old(self).sigs@.push(sig),
    {
        self.sigs.push(sig);
    }

    /// How many nodes signed.
    pub fn unique_len(&self) -> (r: usize)
        ensures
            r == signers(self.sigs@).len(),
            r <= self.sigs@.len(),
    {
        let mut n: usize = 0;
        let mut i: usize = 0;
        assert(signers(self.sigs@.take(0)) =~= Set::empty());
        while i < self.sigs.len()
            invariant
                i <= self.sigs@.len(),
                signers(self.sigs@.take(i as int)).finite(),
                n == signers(self.sigs@.take(i as int)).len(),
                n <= i,
            decreases self.sigs@.len() - i,
        {
            let ghost prior = self.sigs@.take(i as int);
            let ghost next = self.sigs@.take(i as int + 1);
            let id: usize = self.sigs[i].signer;
            let mut known: bool = false;
            let mut j: usize = 0;
            while j < i
                invariant
                    j <= i < self.sigs@.len(),
                    prior == self.sigs@.take(i as int),
                    known == (exists|k: int| 0 <= k < j && (#[trigger] prior[k]).signer == id),
                decreases i - j,
            {
                assert(prior[j as int] == self.sigs@[j as int]);
                if self.sigs[j].signer == id {
                    known = true;
                }
                j += 1;
            }
            proof {
                assert(signers(next) =~= signers(prior).insert(id)) by {
                    assert(next[i as int].signer == id);
                    assert forall|a: usize| signers(prior).contains(a) implies #[trigger] signers(next).contains(a) by {
                        let k = choose|k: int| 0 <= k < prior.len() && (#[trigger] prior[k]).signer == a;
                        assert(next[k].signer == a);
                    }
                    assert forall|a: usize| #[trigger] signers(next).contains(a) && a != id implies signers(prior).contains(
                        a,
                    ) by {
                        let k = choose|k: int| 0 <= k < next.len() && (#[trigger] next[k]).signer == a;
                        assert(prior[k].signer == a);
                    }
                }
            }
            if !known {
                n += 1;
            }
            i += 1;
        }
        assert(self.sigs@.take(i as int) =~= self.sigs@);
        n
    }
}

/// Whether the signatures are those of the map, each once.
pub open spec fn certifies(sigs: Seq<Arc<Signature>>, blames: Map<usize, Arc<Signature>>) -> bool {
    &&& signers(sigs) == blames.dom()
    &&& sigs.len() == blames.dom().len()
    &&& forall|i: int|
        0 <= i < sigs.len() ==> blames.contains_key((#[trigger] sigs[i]).signer) && sigs[i] == blames[sigs[i].signer]
}

/// A certificate made of the signatures of a map.
pub fn certificate_of(blames: &FnvHashMap<usize, Arc<Signature>>) -> (r: Certificate)
    requires
        forall|id: usize| #[trigger] blames@.contains_key(id) ==> blames@[id].signer == id,
    ensures
        certifies(r.sigs@, blames@),
{
    let keys = map_keys(blames);
    let mut qc = Certificate::empty();
    let mut i: usize = 0;
    while i < keys.len()
        invariant
            i <= keys@.len(),
            keys@.to_set() == blames@.dom(),
            qc.sigs@.len() == i,
            forall|j: int| 0 <= j < i ==> blames@.contains_key(keys@[j]) && #[trigger] qc.sigs@[j] == blames@[keys@[j]],
        decreases keys@.len() - i,
    {
        let k: usize = keys[i];
        assert(keys@.to_set().contains(k));
        if let Some(sig) = map_get(blames, &k) {
            qc.add_signature(share(sig));
        }
        i += 1;
    }
    proof {
        keys@.unique_seq_to_set();
        assert forall|id: usize| #[trigger] signers(qc.sigs@).contains(id) <==> blames@.dom().contains(id) by {
            if signers(qc.sigs@).contains(id) {
                let j = choose|j: int| 0 <= j < qc.sigs@.len() && (#[trigger] qc.sigs@[j]).signer == id;
                assert(blames@.contains_key(keys@[j]));
            }
            if blames@.dom().contains(id) {
                assert(keys@.to_set().contains(id));
                let j = choose|j: int| 0 <= j < keys@.len() && keys@[j] == id;
                assert(qc.sigs@[j] == blames@[keys@[j]]);
                assert(qc.sigs@[j].signer == id);
            }
        }
        assert(signers(qc.sigs@) =~= blames@.dom());
        assert forall|j: int| 0 <= j < qc.sigs@.len() implies blames@.contains_key((#[trigger] qc.sigs@[j]).signer)
            && qc.sigs@[j] == blames@[qc.sigs@[j].signer] by {
            assert(blames@.contains_key(keys@[j]));
        }
    }
    qc
}

/// A link of a proposal chain: what is proposed, and on top of what.
#[derive(Clone, Copy)]
pub struct Block {
    pub batch_hash: Digest,
    pub parent_hash: Digest,
}

/// A proposal for a round, with a certificate for each round that was skipped before it.
pub struct Proposal {
    pub block: Block,
    pub round: u64,
    pub qc: Option<Vec<Arc<Certificate>>>,
}

impl Proposal {
    pub fn new(block: Block, round: u64, qc: Option<Vec<Arc<Certificate>>>) -> (r: Self)
        ensures
            r == (Proposal { block, round, qc }),
    {
        Proposal { block, round, qc }
    }
}

/// A certificate has one signature for each node of the map, the one that the map holds, and no other.
pub proof fn law_certificate_is_exact(sigs: Seq<Arc<Signature>>, blames: Map<usize, Arc<Signature>>, id: usize, i: int)
    requires
        certifies(sigs, blames),
        0 <= i < sigs.len(),
    ensures
        blames.contains_key(sigs[i].signer),
        sigs[i] == blames[sigs[i].signer],
        sigs.len() == blames.dom().len(),
        blames.contains_key(id) ==> sigs.contains(blames[id]),
{
    if blames.contains_key(id) {
        assert(signers(sigs).contains(id));
        let j = choose|j: int| 0 <= j < sigs.len() && (#[trigger] sigs[j]).signer == id;
        assert(sigs[j] == blames[id]);
    }
}

} // verus!
