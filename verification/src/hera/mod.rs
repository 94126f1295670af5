//! The multi-author protocol: every node grows a data chain of its own, and a signature chain
//! orders attested heads of all of them.

pub mod attestation;
pub mod commit;
pub mod data_actor;
pub mod data_actor_laws;
pub mod data_block_db;
pub mod data_chain;
pub mod data_chain_laws;
pub mod data_effects;
pub mod presence;
pub mod round_state;
pub mod sig;
pub mod sig_laws;
pub mod types;
pub mod cancel;
pub mod net;
pub mod range;
pub mod setup;
