[package]
name = "provable-fairness-system"
version = "0.1.0"
edition = "2021"
publish = false

[dependencies]
anchor-lang = "0.30.1"
solana-keccak-hasher = "2"

[dev-dependencies]
bincode = "1"
