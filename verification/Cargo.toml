[package]
name = "mqtt5"
version = "0.1.0"
edition = "2021"
publish = false

[dependencies]
bytes = "1"
flate2 = "1"
parking_lot = "0.12"
quinn = { version = "0.11", default-features = false, features = ["runtime-tokio"] }
serde = { version = "1", features = ["derive"] }
serde_json = "1"
tokio = { version = "1", features = ["fs", "io-util", "rt", "sync", "time"] }
tracing = "0.1"
