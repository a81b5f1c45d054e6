[package]
name = "instant_local_stream"
version = "0.1.0"
edition = "2021"
publish = false

[dependencies]
anyhow = "=1.0.104"
async-trait = "=0.1.92"
axum = "=0.8.9"
bytes = "=1.12.1"
clap = { version = "=4.6.7", features = ["derive", "env"] }
futures-util = "=0.3.34"
mime_guess = "=2.0.5"
opus-rs = "=0.1.40"
png = "=0.18.1"
rand = "=0.9.5"
reqwest = { version = "=0.12.28", default-features = false, features = ["blocking", "rustls-tls"] }
rtc = "=0.21.1"
serde = { version = "=1.0.229", features = ["derive"] }
serde_json = "=1.0.154"
socketioxide = { version = "=0.18.9", features = ["extensions", "state"] }
tokio = { version = "=1.54.1", features = ["full"] }
tracing = "=0.1.44"
tracing-subscriber = { version = "=0.3.23", features = ["env-filter", "json"] }
uuid = { version = "=1.29.0", features = ["v4"] }
webrtc = "=0.21.1"
