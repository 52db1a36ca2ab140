[package]
name = "ledger_sol_core"
version = "0.1.0"
edition = "2021"
publish = false

[dependencies]
bs58 = "0.5"
ed25519-dalek = "2"
thiserror = "2"
uniffi = { version = "*", default-features = false, features = ["tokio"] }
async-trait = "0.1"
