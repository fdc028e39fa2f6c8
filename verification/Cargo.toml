[package]
name = "swagex"
version = "0.3.1"
edition = "2021"
publish = false

[dependencies]
aes = "0.8"
anyhow = "1"
base64 = "0.22"
cbc = "0.1"
chrono = "0.4"
flate2 = "1"
http-body-util = "0.1"
hudsucker = "0.24"
rcgen = "0.14"
serde = { version = "1", features = ["derive"] }
serde_json = "1"
tokio = { version = "1", features = ["full"] }
tokio-util = "0.7"
