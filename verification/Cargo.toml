[package]
name = "bt-sniffer"
version = "0.1.0"
edition = "2021"
publish = false

[dependencies]
bendy = "=0.6.1"
clap = { version = "4", features = ["derive"] }
directories = "=6.0.0"
futures-util = "=0.3.34"
rand = "=0.10.3"
rusqlite = { version = "=0.41.1", features = ["bundled", "functions", "hooks"] }
serde = { version = "1", features = ["derive"] }
serde_json = "1"
sha1 = "=0.11.0"
sha2 = "=0.11.1"
socket2 = "=0.6.5"
tempfile = "3"
tokio = { version = "=1.54.1", features = ["full"] }
tokio-util = "=0.7.20"
tracing = "0.1"
tracing-appender = "0.2"
tracing-subscriber = { version = "0.3", features = ["env-filter", "json"] }
