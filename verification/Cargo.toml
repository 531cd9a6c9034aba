[package]
name = "alt_index"
version = "0.1.0"
edition = "2021"
publish = false

[dependencies]
sled = "0.34"
serde_cbor = "0.11"
tokio = { version = "1", features = ["sync", "time", "rt", "macros"] }
tracing = "0.1"
