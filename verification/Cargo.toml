[package]
name = "deadlocked"
version = "0.1.0"
edition = "2021"
publish = false

[dependencies]
serde = { version = "=1.0.229", features = ["derive"] }
serde_json = "=1.0.154"
uuid = "1"
urlencoding = "2"
rand = "0.9"
