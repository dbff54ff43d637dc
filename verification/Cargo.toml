[package]
name = "evm2_state"
version = "0.1.0"
edition = "2021"
publish = false

[dependencies]
alloy-primitives = { version = "1", features = ["std", "getrandom"] }
