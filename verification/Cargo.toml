[package]
name = "health_bridge"
version = "0.1.0"
edition = "2021"
publish = false

[dependencies]
anyhow = "*"
docker-api = "*"
futures-util = "*"
reqwest = { version = "*", default-features = false }
tokio = { version = "*", features = ["full"] }
tracing = "*"
tracing-subscriber = "*"
