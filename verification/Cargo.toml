[package]
name = "eth_receipt"
version = "0.1.0"
edition = "2021"
publish = false

[dependencies]
alloy-primitives = { version = "*", features = ["rlp"] }
serde = { version = "*", features = ["derive"] }

[dev-dependencies]
alloy-rlp = "*"
