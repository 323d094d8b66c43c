[package]
name = "rocust"
version = "0.1.0"
edition = "2021"
publish = false

[dependencies]
tokio = { version = "1", features = ["rt-multi-thread", "macros", "sync", "time", "fs", "io-util", "io-std", "signal"] }
tokio-util = "0.7"
rand = "0.8"
tracing = "0.1"
tracing-subscriber = "0.3"
tracing-appender = "0.2"
serde = { version = "1", features = ["derive"] }
serde_json = "1"
serde_yaml = "0.9"
toml = "0.7"
clap = { version = "4", features = ["derive"] }
csv = "1"
prettytable-rs = "0.10"
prometheus-client = "0.19"
axum = "0.6"
hyper = "0.14"
pin-project = "1"
async-trait = "0.1"
thiserror = "1"
