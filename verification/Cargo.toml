[package]
name = "image_core"
version = "0.1.0"
edition = "2021"
publish = false

[dependencies]
image = "0.24"
axum = { version = "0.7", features = ["multipart"] }
tokio = { version = "1", features = ["full"] }
tower-http = { version = "0.5", features = ["cors"] }
serde = { version = "1", features = ["derive"] }
