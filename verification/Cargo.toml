[package]
name = "blockchain_ledger"
version = "0.1.0"
edition = "2021"
publish = false

[dependencies]
bincode = "=1.3.3"
rust-crypto = "=0.2.36"
merkle-cbt = "=0.3.2"
serde = { version = "=1.0.229", features = ["derive"] }
sled = "=0.34.7"
failure = "=0.1.8"
log = "=0.4.34"
clap = "=4.6.7"
bitcoincash-addr = "=0.5.2"
