[package]
name = "algorep"
version = "0.1.0"
edition = "2021"
publish = false

[dependencies]
rand = "0.8"
regex = "1"
tokio = { version = "1", features = ["rt-multi-thread", "macros", "sync", "time"] }
log = "0.4"
env_logger = "0.10"
serde = { version = "1", features = ["derive"] }
serde_cbor = "0.11"
ron = "0.8"
once_cell = "1"
