[package]
name = "codex_tui"
version = "0.1.0"
edition = "2021"
publish = false

[dependencies]
humantime = "=2.4.0"
serde = { version = "=1.0.229", features = ["derive"] }
serde_yaml = "=0.9.34"
indexmap = { version = "=2.14.2", features = ["serde"] }
uuid = { version = "1", features = ["v4"] }
