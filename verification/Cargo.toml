[package]
name = "rollback_rs"
version = "0.1.0"
edition = "2021"
publish = false

[dependencies]
ahash = "0.8"
bincode = "1.3"
serde = { version = "1", features = ["derive"] }
thiserror = "2"
tokio = { version = "1", features = ["net", "rt-multi-thread", "macros", "sync", "time"] }
