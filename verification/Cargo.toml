[package]
name = "ckb-tx-detail-service"
version = "0.1.0"
edition = "2021"
publish = false

[dependencies]
axum = "0.6"
envy = "0.4"
futures = "0.3"
rumqttc = { version = "0.24", default-features = false }
serde = { version = "1", features = ["derive"] }
serde_json = "1"
tokio = { version = "1", features = ["full"] }
tokio-tungstenite = "0.20"
tracing = "0.1"
tracing-subscriber = "0.3"
uuid = { version = "1", features = ["v4"] }
