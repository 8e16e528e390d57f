[package]
name = "ckb4ibc"
version = "0.1.0"
edition = "2021"
publish = false

[dependencies]
async-trait = "=0.1.92"
ckb-jsonrpc-types = "=1.2.1"
ckb-sdk = { version = "=5.1.0", default-features = false }
ckb-types = "=1.1.4"
futures = "=0.3.34"
hex = "=0.4.3"
ibc-proto = { version = "=0.51.1", default-features = false }
ibc-relayer-types = "=0.32.2"
semver = "=1.0.28"
serde = { version = "=1.0.229", features = ["derive"] }
serde_derive = "=1.0.229"
serde_json = "=1.0.154"
tendermint-rpc = { version = "=0.40.4", default-features = false }
tokio = { version = "=1.54.1", features = ["rt-multi-thread"] }
