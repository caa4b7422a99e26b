[package]
name = "poa_ledger"
version = "0.1.0"
edition = "2021"
publish = false

[dependencies]
secp256k1 = { version = "0.20", features = ["rand"] }
sha256 = "1"
