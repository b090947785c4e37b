[package]
name = "pipe_governor"
version = "0.1.0"
edition = "2021"
publish = false

[dependencies]
log = "0.4"
env_logger = "*"
serde = { version = "1", features = ["derive"] }
serde_json = "1"
