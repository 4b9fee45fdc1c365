[package]
name = "pixel_canvas"
version = "0.1.0"
edition = "2021"
publish = false

[dependencies]
async-stream = "0.3"
axum = "0.7"
bincode = "1.3"
chrono = { version = "0.4", default-features = false, features = ["std"] }
deadpool-redis = "0.18"
dotenv = "0.15"
futures-util = "0.3"
scylla = "0.15"
serde = { version = "1", features = ["derive"] }
serde_json = "1"
tokio = { version = "1", features = ["full"] }
tracing = "0.1"
tracing-subscriber = "0.3"
