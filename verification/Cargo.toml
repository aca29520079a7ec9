[package]
name = "ilc"
version = "0.3.0"
edition = "2021"
publish = false

[dependencies]
chrono = "=0.4.45"
regex = "=1.13.1"
bit-set = "=0.11.1"
clap = "=2.34.0"
glob = "=0.3.4"
log = "=0.4.34"
env_logger = "=0.11.11"
serde = { version = "=1.0.229", features = ["derive"] }
serde_json = "=1.0.154"
