//! The protocol logic of a replicated-log node: transaction pools, data chains, commit
//! rules, round bookkeeping and message handling, each with a machine-checked contract.

pub mod chain_commit;
pub mod chain_state;
pub mod client;
pub mod commit_window;
pub mod confirmations;
pub mod digest;
pub mod fnv_map;
pub mod gc_depth;
pub mod hera;
pub mod id;
pub mod keys;
pub mod leto;
pub mod linked_map;
pub mod map_sum;
pub mod round;
pub mod rr_batcher;
pub mod settings;
pub mod sorting;
pub mod text;
pub mod tx_pool;
pub mod tx_pool_effects;
pub mod tx_pool_laws;
pub mod types;
