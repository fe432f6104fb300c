[package]
name = "portfolio_pricer"
version = "0.1.0"
edition = "2021"
publish = false

[dependencies]
chrono = "=0.4.45"
clap = { version = "=4.6.7", features = ["derive"] }
env_logger = "=0.11.11"
log = "=0.4.35"
rusqlite = { version = "=0.41.1", features = ["bundled"] }
serde_json = "=1.0.154"
spreadsheet-ods = "=1.0.4"
time = "=0.3.55"
yahoo_finance_api = { version = "=5.0.0", features = ["blocking"] }
