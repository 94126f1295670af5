//! The messages of the protocol.
use crate::digest::Digest;
use crate::types::{Batch, Certificate, Proposal, Signature};
use std::sync::Arc;
use vstd::prelude::*;

verus! {

/// An agreed element of the proposal chain, with its digest.
pub struct Element<Tx> {
    pub proposal: Arc<Proposal>,
    pub auth: Arc<Signature>,
    pub batch: Arc<Batch<Tx>>,
    pub hash: Digest,
}

/// What nodes send each other.
pub enum ProtocolMsg<Tx> {
    Propose { proposal: Arc<Proposal>, auth: Arc<Signature>, batch: Arc<Batch<Tx>>, sender: usize },
    Relay { proposal: Arc<Proposal>, auth: Arc<Signature>, batch_hash: Digest, sender: usize },
    Blame { round: u64, auth: Arc<Signature> },
    BlameQC { round: u64, qc: Arc<Certificate> },
    BatchRequest { source: usize, request_hash: Digest },
    BatchResponse { request_hash: Digest, batch: Arc<Batch<Tx>> },
    ElementRequest { source: usize, request_hash: Digest },
    ElementResponse { request_hash: Digest, element: Arc<Element<Tx>> },
}

impl<Tx> ProtocolMsg<Tx> {
    /// The round of a message that belongs to one.
    pub open spec fn spec_round(self) -> Option<u64> {
        match self {
            ProtocolMsg::Propose { proposal, .. } => Some(proposal.round),
            ProtocolMsg::Blame { round, .. } => Some(round),
            ProtocolMsg::BlameQC { round, .. } => Some(round),
            _ => None,
        }
    }

    pub fn round(&self) -> (r: Option<u64>)
        ensures
            r == self.spec_round(),
    {
        match self {
            ProtocolMsg::Propose { proposal, .. } => Some(proposal.round),
            ProtocolMsg::Blame { round, .. } => Some(*round),
            ProtocolMsg::BlameQC { round, .. } => Some(*round),
            _ => None,
        }
    }
}

} // verus!
