//! The keys of a committee.
use crate::fnv_map::map_insert;
use crate::types::share;
use fnv::FnvHashMap;
use std::sync::Arc;
use vstd::prelude::*;

verus! {

/// The signature schemes.
#[derive(PartialEq, Eq, Debug, Structural, Clone, Copy)]
pub enum Algorithm {
    RSA,
    ED25519,
    SECP256K1,
}

/// The keys of a node: its own secret key and everybody's public keys.
#[verifier::reject_recursive_types(SecretKey)]
#[verifier::reject_recursive_types(PublicKey)]
pub struct KeyConfig<SecretKey, PublicKey> {
    pub alg: Algorithm,
    pub secret: SecretKey,
    pub system: FnvHashMap<usize, Arc<PublicKey>>,
}

/// Everybody's public keys: the key at place `id` belongs to node `id`.
pub open spec fn public_keys<PublicKey>(keys: Seq<Arc<PublicKey>>) -> Map<usize, Arc<PublicKey>> {
    Map::new(|id: usize| id < keys.len(), |id: usize| keys[id as int])
}

fn system_of<PublicKey>(keys: &Vec<Arc<PublicKey>>) -> (r: FnvHashMap<usize, Arc<PublicKey>>)
    ensures
        r@ == public_keys(keys@),
{
    let mut system: FnvHashMap<usize, Arc<PublicKey>> = FnvHashMap::default();
    let mut id: usize = 0;
    while id < keys.len()
        invariant
            id <= keys@.len(),
            forall|k: usize| #[trigger] system@.contains_key(k) <==> k < id,
            forall|k: usize| #[trigger] system@.contains_key(k) ==> system@[k] == keys@[k as int],
        decreases keys@.len() - id,
    {
        map_insert(&mut system, id, share(&keys[id]));
        id += 1;
    }
    assert(system@ =~= public_keys(keys@));
    system
}

impl<SecretKey, PublicKey> KeyConfig<SecretKey, PublicKey> {
    /// The configurations of a committee, from as many secret keys and public keys as it has nodes:
    /// node `id` gets the `id`-th secret key and all public keys.
    pub fn generate(alg: Algorithm, secrets: Vec<SecretKey>, publics: &Vec<Arc<PublicKey>>) -> (r: Vec<Self>)
        requires
            alg != Algorithm::RSA,
            secrets@.len() == publics@.len(),
        ensures
            r@.len() == secrets@.len(),
            forall|id: int| 0 <= id < r@.len() ==> (#[trigger] r@[id]).alg == alg && r@[id].secret == secrets@[id]
                && r@[id].system@ == public_keys(publics@),
    {
        let mut rest = secrets;
        let mut backwards: Vec<Self> = Vec::new();
        let ghost n = secrets@.len();
        while rest.len() > 0
            invariant
                rest@.len() + backwards@.len() == n,
                n == secrets@.len(),
                rest@ == secrets@.take(rest@.len() as int),
                forall|i: int| 0 <= i < backwards@.len() ==> (#[trigger] backwards@[i]).alg == alg && backwards@[i].secret
                    == secrets@[n - 1 - i] && backwards@[i].system@ == public_keys(publics@),
            decreases rest@.len(),
        {
            if let Some(secret) = rest.pop() {
                backwards.push(KeyConfig { alg, secret, system: system_of(publics) });
                assert(rest@ =~= secrets@.take(rest@.len() as int));
            }
        }
        let mut configs: Vec<Self> = Vec::new();
        while backwards.len() > 0
            invariant
                configs@.len() + backwards@.len() == n,
                n == secrets@.len(),
                forall|i: int| 0 <= i < backwards@.len() ==> (#[trigger] backwards@[i]).alg == alg && backwards@[i].secret
                    == secrets@[n - 1 - i] && backwards@[i].system@ == public_keys(publics@),
                forall|id: int| 0 <= id < configs@.len() ==> (#[trigger] configs@[id]).alg == alg && configs@[id].secret
                    == secrets@[id] && configs@[id].system@ == public_keys(publics@),
            decreases backwards@.len(),
        {
            if let Some(c) = backwards.pop() {
                configs.push(c);
            }
        }
        configs
    }
}

/// Each node has the key at its own place, and nobody else has one.
pub proof fn law_keys_by_place<PublicKey>(keys: Seq<Arc<PublicKey>>, id: usize)
    ensures
        public_keys(keys).contains_key(id) <==> id < keys.len(),
        id < keys.len() ==> public_keys(keys)[id] == keys[id as int],
{
}

} // verus!
