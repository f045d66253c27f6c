[package]
name = "creditcoin_pallets"
version = "0.1.0"
edition = "2021"
publish = false

[dependencies]
bls-signatures = "=0.15.0"
bls12_381 = "=0.8.0"
serde = { version = "=1.0.229", features = ["derive"] }
serde_json = "=1.0.154"
anyhow = "=1.0.104"
