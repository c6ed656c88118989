[package]
name = "pixel_canvas"
version = "0.1.0"
edition = "2021"
publish = false

[dependencies]
axum = "0.7"
chrono = "0.4"
dotenv = "0.15"
memory-stats = "1"
serde = { version = "1", features = ["derive"] }
serde_json = "1"
socketioxide = "0.14"
tokio = { version = "1", features = ["full"] }
tower_governor = "0.4"
tower-http = { version = "0.5", features = ["cors", "fs"] }
tracing = "0.1"
tracing-subscriber = "0.3"
