//! The tip of a proposal chain and the certificates of skipped rounds.
use crate::digest::Digest;
use crate::fnv_map::{map_get, map_insert};
use crate::types::{share, Certificate};
use fnv::FnvHashMap;
use std::sync::Arc;
use vstd::prelude::*;

verus! {

/// What there is to know of a chain.
#[verifier::ext_equal]
pub struct ChainTip {
    pub highest_hash: Digest,
    pub highest_round: u64,
    pub qcs: Map<u64, Arc<Certificate>>,
}

/// The highest element that has been agreed on, and a certificate for each round that was blamed.
pub struct ChainState {
    highest_hash: Digest,
    highest_round: u64,
    qc_map: FnvHashMap<u64, Arc<Certificate>>,
}

impl ChainState {
    pub closed spec fn view(&self) -> ChainTip {
        ChainTip {
            highest_hash: self.highest_hash,
            highest_round: self.highest_round,
            qcs: self.qc_map@,
        }
    }

    /// A chain of the genesis element alone.
    pub fn new(genesis_hash: Digest) -> (r: Self)
        ensures
            r@ == (ChainTip {
                highest_hash: genesis_hash,
                highest_round: 0,
                qcs: Map::<u64, Arc<Certificate>>::empty(),
            }),
    {
        ChainState { highest_hash: genesis_hash, highest_round: 0, qc_map: FnvHashMap::default() }
    }

    /// The digest of the highest element.
    pub fn highest_hash(&self) -> (r: Digest)
        ensures
            r == self@.highest_hash,
    {
        self.highest_hash
    }

    /// The round of the highest element.
    pub fn highest_round(&self) -> (r: u64)
        ensures
            r == self@.highest_round,
    {
        self.highest_round
    }

    /// The element of this digest and round is the highest one now.
    pub fn update_highest_chain(&mut self, hash: Digest, round: u64)
        ensures
            final(self)@ == (ChainTip { highest_hash: hash, highest_round: round, ..old(self)@ }),
    {
        self.highest_hash = hash;
        self.highest_round = round;
    }

    /// Keeps the certificate of a blamed round.
    pub fn add_qc(&mut self, blame_round: u64, qc: Arc<Certificate>)
        ensures
            final(self)@ == (ChainTip { qcs: old(self)@.qcs.insert(blame_round, qc), ..old(self)@ }),
    {
        map_insert(&mut self.qc_map, blame_round, qc);
    }

    /// The certificate of a blamed round.
    pub fn get_qc(&self, round: u64) -> (r: Option<Arc<Certificate>>)
        ensures
            r == (if self@.qcs.contains_key(round) {
                Some(self@.qcs[round])
            } else {
                None
            }),
    {
        match map_get(&self.qc_map, &round) {
            Some(qc) => Some(share(qc)),
            None => None,
        }
    }
}

} // verus!
