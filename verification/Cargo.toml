[package]
name = "crypto_election"
version = "0.1.0"
edition = "2021"
publish = false

[dependencies]
anyhow = "=1.0.104"
bincode = "1"
chrono = "=0.4.45"
exonum = "=1.0.0"
exonum-crypto = "=1.0.0"
exonum-derive = "=1.0.0"
exonum-merkledb = "=1.0.0"
exonum-proto = "=1.0.0"
exonum-rust-runtime = "=1.0.0"
exonum-supervisor = "=1.0.0"
exonum-time = "=1.0.0"
failure = "=0.1.8"
geo = { version = "=0.19.0", default-features = false }
rand = "=0.7.3"
rust_decimal = "=1.43.0"
serde = { version = "=1.0.229", features = ["derive"] }
serde_derive = "=1.0.229"
tokio = { version = "=0.2.25", features = ["macros"] }
