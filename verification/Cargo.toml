[package]
name = "n_core"
version = "0.1.0"
edition = "2021"
publish = false

[dependencies]
chrono = "0.4"
encoding_rs = "0.8"
percent-encoding = "2"
regex = "1"
serde = { version = "1", features = ["derive"] }
serde_json = "1"
tokio = { version = "1", features = ["rt", "rt-multi-thread", "sync", "time", "macros"] }
reqwest = { version = "0.12", default-features = false }
csv = "1"
toml = "0.8"
anyhow = "1"
tracing = "0.1"
sha2 = "0.10"
flate2 = "1"
uuid = { version = "1", features = ["v4"] }
