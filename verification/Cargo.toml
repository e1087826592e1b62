[package]
name = "approval_persistence"
version = "0.1.0"
edition = "2021"
publish = false

[dependencies]
rand = "0.8"
hyper = { version = "0.14", features = ["client", "http1", "tcp"] }
tokio = { version = "1", features = ["rt", "time"] }
futures = "0.3"
log = "0.4"
anyhow = "1"

[dev-dependencies]
serde_json = "1"
