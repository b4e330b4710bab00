[package]
name = "aave_liquidator"
version = "0.1.0"
edition = "2021"
publish = false

[dependencies]
anyhow = "1"
async-trait = "0.1"
clap = { version = "4", features = ["derive"] }
ethers = { version = "2", default-features = false, features = ["abigen"] }
ethers-contract = { version = "2", default-features = false, features = ["abigen", "providers"] }
serde = { version = "1", features = ["derive"] }
serde_json = "1"
tracing = "0.1"
