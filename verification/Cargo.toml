[package]
name = "pdo_daemon"
version = "0.1.0"
edition = "2021"
publish = false

[dependencies]
serde_json = "=1.0.154"
chrono = { version = "=0.4.45", default-features = false, features = ["std", "clock"] }
anyhow = "=1.0.104"
tracing = "=0.1.44"
uuid = { version = "1", features = ["v4"] }
