[package]
name = "outbound_queue"
version = "0.1.0"
edition = "2021"
publish = false

[dependencies]
base64 = "0.22"
sieve-rs = "*"
hyper = "1"
serde_json = "1"
tokio = { version = "1", features = ["rt", "sync", "time"] }
