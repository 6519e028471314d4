[package]
name = "pirately"
version = "0.1.0"
edition = "2021"
publish = false

[dependencies]
anyhow = "1"
base64 = "0.22"
crossbeam-channel = "0.5"
flate2 = "1"
futures-util = "0.3"
hound = "3"
reqwest = { version = "0.12", default-features = false, features = ["rustls-tls", "stream"] }
rubato = "0.16"
serde = { version = "1", features = ["derive"] }
serde_json = "1"
tar = "0.4"
tokio = { version = "1", features = ["full"] }
tracing = "0.1"
transcribe-rs = "*"
vad-rs = "*"
