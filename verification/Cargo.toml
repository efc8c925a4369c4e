[package]
name = "harness"
version = "0.1.0"
edition = "2021"
publish = false

[dependencies]
anyhow = "1"
axum = "0.8"
chrono = "=0.4.45"
chrono-tz = "=0.10.4"
clap = { version = "4", features = ["derive", "env"] }
iana-time-zone = "=0.1.65"
reqwest = { version = "=0.12.28", default-features = false, features = ["json"] }
rrule = "=0.14.0"
serde = { version = "1", features = ["derive"] }
serde_json = "=1.0.154"
tokio = { version = "=1.54.1", features = ["fs", "io-util", "macros", "net", "rt-multi-thread", "sync", "time"] }
tokio-stream = { version = "0.1", features = ["sync"] }
tokio-util = "=0.7.20"
tungstenite = "=0.27.0"
uuid = { version = "=1.29.0", features = ["v4"] }
