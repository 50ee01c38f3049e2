[package]
name = "nacho_media"
version = "0.1.0"
edition = "2021"
publish = false

[dependencies]
chrono = "=0.4.45"
serde = { version = "1", features = ["derive"] }
serde_json = "1"
tokio = { version = "=1.53.2", features = ["full"] }
axum = "=0.7.9"
tokio-util = { version = "0.7", features = ["io"] }
directories = "=5.0.1"
reqwest = { version = "0.12", features = ["json"] }
