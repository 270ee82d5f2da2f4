[package]
name = "obscura_core"
version = "0.1.0"
edition = "2021"
publish = false

[dependencies]
blake2 = "0.10"
ed25519-dalek = "1.0.1"
clap = { version = "4", features = ["derive"] }
