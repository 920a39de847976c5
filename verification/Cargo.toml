[package]
name = "cuprate_core"
version = "0.1.0"
edition = "2021"
publish = false

[dependencies]
fjall = "3"
monero-oxide = "*"
syn = { version = "2", features = ["full", "visit"] }
tapes = "*"
thiserror = "2"
tokio = { version = "1", features = ["sync", "rt"] }
tracing = "0.1"

[dev-dependencies]
tempfile = "3"
