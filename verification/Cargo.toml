[package]
name = "comfy_router"
version = "0.1.0"
edition = "2021"
publish = false

[dependencies]
anyhow = "=1.0.104"
axum = "=0.8.9"
dotenv = "=0.15.0"
futures-util = "=0.3.34"
reqwest = { version = "=0.13.5", default-features = false, features = ["json", "stream"] }
serde = { version = "=1.0.229", features = ["derive"] }
serde_json = "=1.0.151"
tokio = { version = "=1.53.2", features = ["full"] }
tokio-tungstenite = "=0.30.0"
tower = "=0.5.3"
tower-http = { version = "=0.7.1", features = ["auth", "cors", "trace", "normalize-path", "validate-request"] }
tracing = "=0.1.44"
tracing-subscriber = "=0.3.23"
url = "=2.5.8"
uuid = { version = "=1.27.0", features = ["v4"] }
