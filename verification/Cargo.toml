[package]
name = "portfolio_tracker"
version = "0.1.0"
edition = "2021"
publish = false

[dependencies]
comfy-table = "*"
rustyline = "*"
tokio-test = "*"
yahoo_finance_api = "*"

[dev-dependencies]
serde_json = "*"
