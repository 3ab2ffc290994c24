[package]
name = "flowt"
version = "0.1.0"
edition = "2021"
publish = false

[dependencies]
anyhow = "=1.0.104"
chrono = { version = "=0.4.45", features = ["serde"] }
clap = { version = "=4.6.7", features = ["derive"] }
cron = "=0.12.1"
crossterm = "=0.27.0"
dirs = "=5.0.1"
dotenv = "=0.15.0"
polodb_core = "=4.4.2"
ratatui = "=0.26.3"
serde = { version = "=1.0.229", features = ["derive"] }
serde_json = "=1.0.154"
serde_yaml = "=0.9.34"
tokio = { version = "=1.54.1", features = ["full"] }
