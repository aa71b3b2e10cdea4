[package]
name = "village_model"
version = "0.1.0"
edition = "2021"
publish = false

[dependencies]
rust_decimal = "1"
chrono = { version = "0.4", features = ["serde"] }
rand = "0.9"
serde = { version = "1", features = ["derive"] }
serde_json = "1"
serde_yaml = "0.9"
lexopt = "0.3"
crossterm = "0.28"
ratatui = "0.29"
env_logger = "0.11"
log = "0.4"
