//! The settings of a client.
use crate::fnv_map::{map_get, map_keys, map_len};
use fnv::FnvHashMap;
use vstd::prelude::*;

verus! {

/// Where a client sends its transactions.
#[derive(PartialEq, Eq, Debug, Structural, Clone, Copy)]
pub enum ClientMode {
    /// To all servers.
    LetoBroadcast,
    /// To the leader of the epoch, if it is known.
    ZeusEleaderOnly { eleader_id: Option<usize> },
}

/// A server, as a client sees it.
pub struct Party {
    pub id: usize,
    pub address: String,
    pub port: u16,
    /// Where this client listens for confirmations.
    pub confirmation_port: u16,
}

/// The servers.
pub struct Config {
    pub parties: FnvHashMap<usize, Party>,
}

impl Config {
    /// The number of servers.
    pub fn num_nodes(&self) -> (r: usize)
        ensures
            r == self.parties@.dom().len(),
    {
        map_len(&self.parties)
    }

    /// The server of this id.
    pub fn get(&self, id: &usize) -> (r: Option<&Party>)
        ensures
            r == (if self.parties@.contains_key(*id) {
                Some(&self.parties@[*id])
            } else {
                None
            }),
    {
        map_get(&self.parties, id)
    }

    /// All ids, in an order that is left open.
    pub fn get_all_ids(&self) -> (r: Vec<usize>)
        ensures
            r@.no_duplicates(),
            r@.to_set() == self.parties@.dom(),
    {
        map_keys(&self.parties)
    }
}

/// How much load a client makes.
pub struct Bench {
    /// The size of a transaction in bytes, above 8.
    pub tx_size: usize,
    pub burst_interval_ms: u64,
    pub txs_per_burst: usize,
    /// How often the latency is reported, in seconds.
    pub bench_emit_window_secs: u64,
    pub emit_dp: bool,
}

/// The settings of a client.
pub struct Settings {
    pub consensus_config: Config,
    pub bench_config: Bench,
    pub client_mode: ClientMode,
    pub my_confirmation_address: String,
    pub my_confirmation_port: u16,
}

impl Settings {
    /// The mode of a client that is not told otherwise.
    pub fn default_client_mode() -> (r: ClientMode)
        ensures
            r == ClientMode::LetoBroadcast,
    {
        ClientMode::LetoBroadcast
    }

    /// The address that a client listens at if it is not told otherwise.
    pub fn default_confirmation_address() -> (r: &'static str)
        ensures
            r@ == "0.0.0.0"@,
    {
        "0.0.0.0"
    }
}

} // verus!
