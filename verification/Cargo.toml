[package]
name = "yundrone_ble"
version = "0.1.0"
edition = "2021"
publish = false

[dependencies]
serde = { version = "=1.0.229", features = ["derive"] }
serde_json = "=1.0.154"
anyhow = "=1.0.104"
thiserror = "=1.0.69"
uuid = { version = "=1.29.0", features = ["v4"] }
clap = { version = "=4.6.7", features = ["derive"] }
tokio = { version = "=1.54.1", features = ["rt-multi-thread", "macros", "time", "sync"] }
futures = "=0.3.34"
btleplug = "=0.11.8"
inquire = "0.7"
comfy-table = "7"
crossterm = "0.28"
tracing = "0.1"
tracing-subscriber = "0.3"
