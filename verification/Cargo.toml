[package]
name = "rusty_cam"
version = "0.1.0"
edition = "2021"
publish = false

[dependencies]
anyhow = "1"
axum = { version = "0.8", features = ["ws"] }
bytes = "1"
futures-util = "0.3"
gstreamer = "0.23"
gstreamer-app = "0.23"
image = { version = "0.25", default-features = false }
imageproc = { version = "0.25", default-features = false }
serde = { version = "1", features = ["derive"] }
serde_json = "1"
tokio = { version = "1", features = ["full"] }
tokio-tungstenite = "0.26"
webrtc = "0.12"
