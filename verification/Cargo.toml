[package]
name = "ballotchain"
version = "0.1.0"
edition = "2021"
publish = false

[dependencies]
sha2 = "=0.10.9"
hex = "=0.4.3"
serde = { version = "=1.0.229", features = ["derive"] }
serde_json = "=1.0.154"
async-std = "=1.13.2"
futures = "=0.3.34"
env_logger = "=0.9.3"
libp2p = { version = "=0.40.0", default-features = false, features = ["gossipsub", "tcp-async-io", "noise", "mplex", "yamux"] }
egui = { version = "0.14", default-features = false }
epi = { version = "0.14", default-features = false }
