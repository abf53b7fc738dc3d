[package]
name = "hep-rs"
version = "0.0.1"
edition = "2021"
publish = false

[dependencies]
thiserror = "2"
tokio = { version = "1", features = ["macros", "net", "rt", "sync", "time"] }
tracing = "0.1"
