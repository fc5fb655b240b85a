[package]
name = "claudeditor"
version = "0.1.0"
edition = "2021"
publish = false

[dependencies]
chrono = { version = "0.4", default-features = false, features = ["now", "serde", "std"] }
env_logger = { version = "0.10", default-features = false }
log = "0.4"
serde = { version = "1", features = ["derive"] }
uuid = { version = "1", features = ["v4"] }
