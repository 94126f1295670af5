# consensus

The protocol logic of a replicated log, written in Verus: every function of `src/` has a contract
that is proved.

- `src/tx_pool.rs`, `src/rr_batcher.rs`: the pool of client transactions and the batcher that draws
  on it; `src/tx_pool_laws.rs` states what holds across their operations.
- `src/hera/`: the multi-author protocol. Every node grows a chain of data blocks
  (`data_chain.rs`, `data_actor.rs`, `data_block_db.rs`, `presence.rs`); a signature chain attests
  and orders their heads (`sig.rs`, `round_state.rs`, `attestation.rs`, `range.rs`) and commits by a
  sliding window of proposers (`commit.rs`). `net.rs` holds the rules of the connections, `setup.rs`
  what a node is set up with.
- `src/leto/`: the leader-rotating protocol: rotation (`leader_context.rs`), rounds
  (`round_context.rs`), proposals and blames (`protocol.rs`), delivery (`synchronizer.rs`), receipts
  (`quorum_waiter.rs`) and its commit rule (`commit.rs`).
- `src/chain_commit.rs`, `src/commit_window.rs`: the commit rule that both chains share, and its window.
- `src/client/`: the load client.
- `src/fnv_map.rs`, `src/linked_map.rs`: the bindings for the maps of the `fnv` and
  `linked-hash-map` crates, whose contracts are believed and not proved. So are those of a few more
  wrappers: for `rand` in `leto/leader_context.rs` and `hera/net.rs`, and for std in `types.rs` and
  `tx_pool.rs`.
- `app/`: ordinary Rust around it: sockets, timers, channels, files and encodings. A deployment
  brings its keys and its storage through the traits of `app/outside.rs`.

A handler takes what the outside world found out (whether a signature verifies, what storage has) as
an argument and returns what is to be done; the tasks of `app/` perform it.
