[package]
name = "chain_bench"
version = "0.1.0"
edition = "2021"
publish = false

[dependencies]
actix = "0.13"
alloy = { version = "1", default-features = false, features = ["std", "consensus", "network", "rpc-types-eth", "signers", "signer-local", "sol-types", "k256"] }
anyhow = "1"
futures = "0.3"
serde = { version = "1", features = ["derive"] }
tokio = { version = "1", features = ["sync", "time"] }
toml = "0.8"
tracing = "0.1"
