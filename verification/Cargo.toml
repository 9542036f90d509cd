[package]
name = "phenolrs"
version = "0.1.0"
edition = "2021"
publish = false

[dependencies]
serde_json = "=1.0.151"
serde = { version = "=1.0.229", features = ["derive"] }
reqwest = { version = "=0.12.28", features = ["rustls-tls"] }
reqwest-middleware = "=0.4.2"
reqwest-retry = "=0.8.0"
tokio = { version = "=1.53.2", features = ["rt-multi-thread", "sync", "time"] }
bytes = "=1.12.1"
arangors-graph-exporter = "=0.1.2"
