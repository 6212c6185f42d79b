[package]
name = "pruner"
version = "0.1.0"
edition = "2021"
publish = false

[dependencies]
ph = "0.8"
rayon = "1"
reth-db = "*"
reth-primitives = "*"
reth-provider = "*"
serde = { version = "1", features = ["derive"] }
tracing = "0.1"
