[package]
name = "csv_managed"
version = "0.1.0"
edition = "2021"
publish = false

[dependencies]
anyhow = "1"
bincode = { version = "2", features = ["serde"] }
chrono = "0.4"
clap = { version = "4", features = ["derive"] }
csv = "1"
encoding_rs = "0.8"
env_logger = "0.11"
evalexpr = "11"
heck = "0.5"
log = "0.4"
regex = "1"
rust_decimal = "1"
serde = { version = "1", features = ["derive"] }
serde_yaml = "0.9"
sha2 = "0.10"
uuid = "1"
