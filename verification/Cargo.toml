[package]
name = "snarkvm_core"
version = "0.1.0"
edition = "2021"
publish = false

[dependencies]
aleo-std = { version = "=0.1.24", features = ["storage"] }
anyhow = "=1.0.104"
serde = { version = "=1.0.229", features = ["derive"] }
serde_json = "=1.0.154"
