[package]
name = "looper"
version = "0.1.0"
edition = "2021"
publish = false

[dependencies]
axum = "0.8"
brstm = "*"
ffmpeg-next = "7"
futures-util = "0.3"
serde = { version = "1", features = ["derive"] }
tokio = { version = "1", features = ["full"] }
tower-http = { version = "0.6", features = ["cors", "compression-gzip", "trace"] }
tracing = "0.1"
tracing-subscriber = "0.3"
