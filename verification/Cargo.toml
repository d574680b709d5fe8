[package]
name = "cstimer_analyzer"
version = "0.1.0"
edition = "2021"
publish = false

[dependencies]
chrono = { version = "=0.4.45", default-features = false, features = ["clock", "std"] }
env_logger = { version = "=0.11.11", default-features = false }
log = "=0.4.34"
serde_json = "1"
