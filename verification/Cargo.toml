[package]
name = "tenhou_log_parser"
version = "0.1.0"
edition = "2021"
publish = false

[dependencies]
anyhow = "*"
clap = { version = "*", features = ["derive"] }
encoding_rs = "*"
env_logger = "*"
flate2 = "*"
log = "*"
percent-encoding = "*"
serde = { version = "*", features = ["derive"] }
serde_json = "*"
uuid = { version = "*", features = ["v4"] }
