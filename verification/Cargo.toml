[package]
name = "judge_core"
version = "0.1.0"
edition = "2021"
publish = false

[dependencies]
chrono = "0.4"
actix-web = "4"
serde = { version = "1", features = ["derive"] }
serde_json = "1"
clap = { version = "3", features = ["derive"] }
env_logger = "0.10"
log = "0.4"
lazy_static = "1"
wait-timeout = "0.2"
