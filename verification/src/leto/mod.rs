//! The leader-rotating protocol: one proposal per round, with blames for silent leaders.

pub mod commit;
pub mod laws;
pub mod leader_context;
pub mod round_context;
pub mod types;
pub mod protocol;
pub mod quorum_waiter;
pub mod synchronizer;
