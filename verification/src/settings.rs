//! The settings of a server.
use crate::fnv_map::{map_contains, map_get, map_keys, map_len};
use crate::text::same_text;
use fnv::FnvHashMap;
use vstd::prelude::*;
use vstd::std_specs::convert::{FromSpec, FromSpecImpl};

verus! {

/// Where a server keeps its data.
pub struct StorageConfig {
    pub base: String,
    pub prefix: String,
}

/// What a server runs for.
#[derive(PartialEq, Eq, Debug, Structural, Clone, Copy)]
pub enum ENV {
    Development,
    Testing,
    Production,
}

impl ENV {
    /// The name of the environment.
    pub open spec fn name(self) -> Seq<char> {
        match self {
            ENV::Development => "Development"@,
            ENV::Testing => "Testing"@,
            ENV::Production => "Production"@,
        }
    }

    /// The name of the environment.
    pub fn as_str(&self) -> (r: &'static str)
        ensures
            r@ == self.name(),
    {
        match self {
            ENV::Development => "Development",
            ENV::Testing => "Testing",
            ENV::Production => "Production",
        }
    }
}

/// The environment of a name. Every name but two stands for development.
pub open spec fn env_of(name: Seq<char>) -> ENV {
    if name == "Testing"@ {
        ENV::Testing
    } else if name == "Production"@ {
        ENV::Production
    } else {
        ENV::Development
    }
}

impl<'a> FromSpecImpl<&'a str> for ENV {
    open spec fn obeys_from_spec() -> bool {
        true
    }

    open spec fn from_spec(env: &'a str) -> Self {
        env_of(env@)
    }
}

impl<'a> From<&'a str> for ENV {
    fn from(env: &'a str) -> (r: Self) {
        if same_text(env, "Testing") {
            ENV::Testing
        } else if same_text(env, "Production") {
            ENV::Production
        } else {
            ENV::Development
        }
    }
}

/// An environment's name stands for that environment.
pub proof fn law_env_round_trip(env: ENV)
    ensures
        env_of(env.name()) == env,
{
    reveal_strlit("Development");
    reveal_strlit("Testing");
    reveal_strlit("Production");
    assert("Testing"@.len() == 7);
    assert("Production"@.len() == 10);
    assert("Development"@.len() == 11);
}

/// A server of the committee.
pub struct Party {
    pub id: usize,
    pub mempool_address: String,
    pub mempool_port: u16,
    pub consensus_address: String,
    pub consensus_port: u16,
    /// For the clients of the mempool.
    pub client_port: u16,
    /// For the clients of the protocol.
    pub consensus_client_port: u16,
    /// For data blocks.
    pub data_port: u16,
}

/// The committee.
pub struct Config {
    pub parties: FnvHashMap<usize, Party>,
}

/// The peers of a node: those of the ids below the committee's size that have an entry, in order,
/// up to the first that has none.
pub struct PeerList {
    pub found: Vec<usize>,
    /// The id that has no entry.
    pub missing: Option<usize>,
}

/// The peers among the ids below `n`.
pub open spec fn peers_below(parties: Map<usize, Party>, my_id: usize, n: nat) -> (Seq<usize>, Option<usize>)
    decreases n,
{
    if n == 0 {
        (Seq::empty(), None)
    } else {
        let p = peers_below(parties, my_id, (n - 1) as nat);
        let id = (n - 1) as usize;
        if p.1 is Some || id == my_id {
            p
        } else if parties.contains_key(id) {
            (p.0.push(id), None)
        } else {
            (p.0, Some(id))
        }
    }
}

impl Config {
    /// The number of servers.
    pub fn num_nodes(&self) -> (r: usize)
        ensures
            r == self.parties@.dom().len(),
    {
        map_len(&self.parties)
    }

    /// The server of this id.
    pub fn get(&self, id: &usize) -> (r: Option<&Party>)
        ensures
            r == (if self.parties@.contains_key(*id) {
                Some(&self.parties@[*id])
            } else {
                None
            }),
    {
        map_get(&self.parties, id)
    }

    /// All ids, in an order that is left open.
    pub fn get_all_ids(&self) -> (r: Vec<usize>)
        ensures
            r@.no_duplicates(),
            r@.to_set() == self.parties@.dom(),
    {
        map_keys(&self.parties)
    }

    /// The peers of a node.
    pub fn peers(&self, my_id: usize) -> (r: PeerList)
        ensures
            (r.found@, r.missing) == peers_below(self.parties@, my_id, self.parties@.dom().len()),
    {
        let n: usize = self.num_nodes();
        let mut found: Vec<usize> = Vec::new();
        let mut id: usize = 0;
        while id < n
            invariant
                id <= n == self.parties@.dom().len(),
                peers_below(self.parties@, my_id, id as nat) == (found@, None::<usize>),
            decreases n - id,
        {
            if id != my_id {
                if !map_contains(&self.parties, &id) {
                    proof {
                        lemma_missing_stays(self.parties@, my_id, (id + 1) as nat, n as nat);
                    }
                    return PeerList { found, missing: Some(id) };
                }
                found.push(id);
            }
            id += 1;
        }
        PeerList { found, missing: None }
    }
}

proof fn lemma_missing_stays(parties: Map<usize, Party>, my_id: usize, m: nat, n: nat)
    requires
        m <= n,
        peers_below(parties, my_id, m).1 is Some,
    ensures
        peers_below(parties, my_id, n) == peers_below(parties, my_id, m),
    decreases n - m,
{
    if m < n {
        lemma_missing_stays(parties, my_id, m, (n - 1) as nat);
    }
}

/// How batches are sealed.
pub struct BenchConfig {
    /// The bytes that fill a batch.
    pub batch_size: usize,
    /// The time, in milliseconds, after which a batch is sealed that is not full.
    pub batch_timeout_ms: u64,
}

impl Default for BenchConfig {
    fn default() -> (r: Self)
        ensures
            r == (BenchConfig { batch_size: 1_000, batch_timeout_ms: 1_000 }),
    {
        BenchConfig { batch_size: 1_000, batch_timeout_ms: 1_000 }
    }
}

/// The names of the environments, and what other names stand for.
pub proof fn law_env_names(name: Seq<char>)
    ensures
        ENV::Development.name() == "Development"@,
        ENV::Testing.name() == "Testing"@,
        ENV::Production.name() == "Production"@,
        env_of(name) is Testing <==> name == "Testing"@,
        env_of(name) is Production <==> name == "Production"@,
{
    reveal_strlit("Testing");
    reveal_strlit("Production");
    assert("Testing"@.len() == 7);
    assert("Production"@.len() == 10);
}

/// The peers are all other nodes in order, up to the first that has no entry, and that one is reported.
pub proof fn law_peers_come_in_order(parties: Map<usize, Party>, my_id: usize, n: nat, id: usize)
    requires
        n <= usize::MAX,
    ensures
        ({
            let (found, missing) = peers_below(parties, my_id, n);
            &&& forall|i: int, j: int| 0 <= i < j < found.len() ==> #[trigger] found[i] < #[trigger] found[j]
            &&& found.contains(id) <==> id < n && id != my_id && (missing matches Some(m) ==> id < m)
            &&& found.contains(id) ==> parties.contains_key(id)
            &&& missing matches Some(m) ==> m < n && m != my_id && !parties.contains_key(m)
            &&& forall|i: int| 0 <= i < found.len() ==> #[trigger] found[i] < n
        }),
    decreases n,
{
    if n > 0 {
        let m = (n - 1) as usize;
        law_peers_come_in_order(parties, my_id, (n - 1) as nat, id);
        let (before, gap) = peers_below(parties, my_id, (n - 1) as nat);
        let (found, missing) = peers_below(parties, my_id, n);
        if gap is None && m != my_id && parties.contains_key(m) {
            assert(found == before.push(m));
            assert(found.contains(id) <==> before.contains(id) || id == m) by {
                if before.contains(id) {
                    let i = choose|i: int| 0 <= i < before.len() && before[i] == id;
                    assert(found[i] == id);
                }
                if id == m {
                    assert(found[before.len() as int] == id);
                }
                if found.contains(id) && id != m {
                    let i = choose|i: int| 0 <= i < found.len() && found[i] == id;
                    assert(before[i] == id);
                }
            }
            assert forall|i: int, j: int| 0 <= i < j < found.len() implies #[trigger] found[i] < #[trigger] found[j] by {
                assert(found[i] == before[i]);
                if j < before.len() {
                    assert(found[j] == before[j]);
                }
            }
        }
    }
}

/// A text is the name of an environment, as it is.
pub proof fn law_env_of_a_text<'a>(text: &'a str)
    ensures
        <ENV as FromSpec<&'a str>>::from_spec(text) == env_of(text@),
{
}

} // verus!
