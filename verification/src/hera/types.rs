//! Data blocks, their heads and the attestations that order them.
use crate::digest::Digest;
use crate::types::{Certificate, Proposal, Signature};
use std::sync::Arc;
use vstd::prelude::*;

verus! {

/// The digest that names a data block.
pub type DataBlockHash = Digest;

/// What an author signs.
pub struct DataBlockEnvelope<Tx> {
    pub epoch: u64,
    pub height: u64,
    pub payload: Vec<Arc<Tx>>,
    pub parent_hash: DataBlockHash,
}

/// The author's signature on an envelope.
pub struct DataBlockSig {
    pub raw: Vec<u8>,
    pub signer: usize,
}

/// A block of an author's data chain, with the digest of its envelope.
pub struct DataBlock<Tx> {
    pub envelope: DataBlockEnvelope<Tx>,
    pub sig: DataBlockSig,
    pub hash: DataBlockHash,
}

impl<Tx> DataBlock<Tx> {
    /// The block below every data chain: epoch 0, height 0, no payload, no signature. Its parent
    /// is the digest of all zeroes.
    pub open spec fn spec_is_genesis(&self) -> bool {
        &&& self.envelope.epoch == 0
        &&& self.envelope.height == 0
        &&& self.envelope.payload@.len() == 0
        &&& self.envelope.parent_hash@ =~= Seq::new(32, |i: int| 0u8)
        &&& self.sig.raw@.len() == 0
        &&& self.sig.signer == 0
    }

    /// The genesis block, whose envelope has this digest.
    pub fn genesis(hash: DataBlockHash) -> (r: Self)
        ensures
            r.spec_is_genesis(),
            r.hash == hash,
    {
        DataBlock {
            envelope: DataBlockEnvelope {
                epoch: 0,
                height: 0,
                payload: Vec::new(),
                parent_hash: [0u8; 32],
            },
            sig: DataBlockSig { raw: Vec::new(), signer: 0 },
            hash,
        }
    }

    /// Whether the block stands at the foot of its chain.
    pub fn is_genesis(&self) -> (r: bool)
        ensures
            r == (self.envelope.height == 0),
    {
        self.envelope.height == 0
    }
}

/// An attested head of an author's data chain.
#[derive(Clone, Copy)]
pub struct DataHead {
    pub author: usize,
    pub hash: DataBlockHash,
    pub height: u64,
    pub epoch: u64,
}

/// What the leader of a signature round attests: a head for every author that has moved on, a
/// blame for every other one.
pub struct MultiAttestationEnvelope {
    pub epoch_s: u64,
    pub round_s: u64,
    pub parent_hash_s: Digest,
    pub heads: Vec<DataHead>,
    pub blames: Vec<usize>,
}

/// The leader's signature on an attestation.
pub struct AttestationSig {
    pub raw: Vec<u8>,
    pub signer: usize,
}

/// A signed attestation.
pub struct MultiAttestation {
    pub envelope: MultiAttestationEnvelope,
    pub sig_s: AttestationSig,
}

/// The greatest height in a list of heads, 0 for an empty one.
pub open spec fn max_height(heads: Seq<DataHead>) -> u64
    decreases heads.len(),
{
    if heads.len() == 0 {
        0
    } else if heads.last().height > max_height(heads.drop_last()) {
        heads.last().height
    } else {
        max_height(heads.drop_last())
    }
}

impl MultiAttestation {
    pub fn new(envelope: MultiAttestationEnvelope, sig_s: AttestationSig) -> (r: Self)
        ensures
            r == (MultiAttestation { envelope, sig_s }),
    {
        MultiAttestation { envelope, sig_s }
    }

    /// The greatest attested height.
    pub fn max_head_height(&self) -> (r: u64)
        ensures
            r == max_height(self.envelope.heads@),
    {
        let heads = &self.envelope.heads;
        let mut best: u64 = 0;
        let mut i: usize = 0;
        assert(heads@.take(0) =~= Seq::empty());
        while i < heads.len()
            invariant
                i <= heads@.len(),
                best == max_height(heads@.take(i as int)),
            decreases heads@.len() - i,
        {
            assert(heads@.take(i as int + 1).drop_last() =~= heads@.take(i as int));
            if heads[i].height > best {
                best = heads[i].height;
            }
            i += 1;
        }
        assert(heads@.take(i as int) =~= heads@);
        best
    }
}

/// A proposal of the signature chain, with the attestation it stands for.
pub struct SigProposal {
    pub proposal: Arc<Proposal>,
    pub auth: Arc<Signature>,
    pub attestation: Arc<MultiAttestation>,
    /// The node that sent it: it has everything that the proposal refers to.
    pub sender: usize,
}

/// An agreed element of the signature chain, with its digest.
pub struct SigElement {
    pub proposal: Arc<Proposal>,
    pub auth: Arc<Signature>,
    pub payload: Vec<Arc<MultiAttestation>>,
    pub hash: Digest,
}

/// What nodes send each other.
pub enum HeraMsg<Tx> {
    SigPropose(Arc<SigProposal>),
    SigRelay { proposal: Arc<Proposal>, auth: Arc<Signature>, att_hash: Digest, sender: usize },
    SigBlame { round: u64, auth: Arc<Signature>, highest_round: u64, highest_hash: Digest },
    SigBlameQC { round: u64, qc: Arc<Certificate>, highest_round: u64, highest_hash: Digest },
    SigElementRequest { source: usize, target_hash: Digest },
    SigElementResponse { element: Arc<SigElement> },
    SigElementRangeRequest { source: usize, from_round: u64, to_round: u64 },
    SigElementRangeResponse { elements: Vec<Arc<SigElement>> },
    DataPropose { block: Arc<DataBlock<Tx>>, sender: usize },
    DataRequest { target_hash: Digest, source: usize },
    DataResponse { block: Arc<DataBlock<Tx>>, responder: usize },
}

/// What makes a genesis block.
pub proof fn law_genesis_is_blank<Tx>(block: DataBlock<Tx>)
    ensures
        block.spec_is_genesis() <==> {
            &&& block.envelope.epoch == 0 && block.envelope.height == 0
            &&& block.envelope.payload@.len() == 0
            &&& forall|i: int| 0 <= i < 32 ==> #[trigger] block.envelope.parent_hash@[i] == 0
            &&& block.sig.raw@.len() == 0 && block.sig.signer == 0
        },
{
    assert(block.envelope.parent_hash@.len() == 32);
}

} // verus!
