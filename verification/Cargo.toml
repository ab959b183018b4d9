[package]
name = "trend_signals"
version = "0.1.0"
edition = "2021"
publish = false

[dependencies]
serde_json = "1"
serde = { version = "1", features = ["derive"] }
tokio = { version = "1", features = ["full"] }
tokio-tungstenite = { version = "*", features = ["native-tls"] }
futures-util = "0.3"
futures = "0.3"
reqwest = { version = "0.12", features = ["json"] }
chrono = "0.4"
log = "0.4"
simple_logger = "*"
warp = { version = "0.3", default-features = false }
