[package]
name = "consensus"
version = "0.1.0"
edition = "2021"
publish = false

[dependencies]
anyhow = "1"
arc-swap = "1"
bincode = "1"
bytes = "1"
config = "0.13"
fnv = "1"
futures = "0.3"
futures-util = "0.3"
linked-hash-map = "0.5"
log = "0.4"
once_cell = "1"
rand = "0.8"
serde = { version = "1", features = ["derive"] }
tokio = { version = "1", features = ["full"] }
