[package]
name = "sshx"
version = "0.1.0"
edition = "2021"
publish = false

[dependencies]
anyhow = "=1.0.104"
async-channel = "=2.5.0"
async-stream = "=0.3.6"
axum = { version = "=0.8.9", features = ["ws", "multipart"] }
bytes = { version = "=1.12.1", features = ["serde"] }
ciborium = "=0.2.2"
futures-util = { version = "=0.3.34", features = ["sink"] }
http = "=1.5.0"
parking_lot = "=0.12.5"
serde = { version = "=1.0.229", features = ["derive"] }
subtle = "=2.6.1"
tokio = { version = "=1.54.1", features = ["full"] }
tokio-stream = { version = "=0.1.19", features = ["sync"] }
tokio-tungstenite = "=0.26.2"
tower-http = { version = "=0.6.11", features = ["fs", "limit"] }
tracing = "=0.1.44"
uuid = { version = "=1.29.0", features = ["v4"] }
