[package]
name = "rblib_world_chain"
version = "0.1.0"
edition = "2021"
publish = false

[dependencies]
alloy-rlp = "=0.3.17"
alloy-primitives = { version = "=1.7.3", features = ["serde"] }
alloy-consensus = "=2.5.0"
alloy-eip7928 = { version = "=0.3.7", features = ["rlp"] }
alloy-eips = "=2.5.0"
alloy-evm = { version = "=0.33.3", default-features = false }
alloy-op-evm = { version = "=0.32.0", default-features = false }
op-alloy-consensus = { version = "=2.0.0", features = ["k256"] }
atomic-time = "0.1"
backon = "1"
chrono = "0.4"
clap = { version = "4", features = ["derive", "env"] }
ed25519-dalek = "=2.2.0"
eyre = "0.6"
futures = "0.3"
parking_lot = "0.12"
serde = { version = "1", features = ["derive"] }
serde_json = "1"
thiserror = "2"
tokio = { version = "1", features = ["sync"] }
tokio-stream = { version = "0.1", features = ["sync"] }
tracing = "0.1"
