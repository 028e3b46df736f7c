[package]
name = "cosmos_core"
version = "0.1.0"
edition = "2021"
publish = false

[dependencies]
rand = "0.8"
rand_chacha = "0.3"
noise = "0.8"
serde = { version = "1", features = ["derive"] }
bincode = "1"
