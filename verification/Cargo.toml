[package]
name = "forgekv"
version = "0.4.0"
edition = "2021"
publish = false

[dependencies]
bytes = "1"
crc32fast = "1"
thiserror = "1"
tokio = { version = "1", features = ["full"] }
tracing = "0.1"
tracing-subscriber = { version = "0.3", features = ["env-filter"] }
