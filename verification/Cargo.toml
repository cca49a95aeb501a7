[package]
name = "webrtc"
version = "0.1.0"
edition = "2021"
publish = false

[dependencies]
rust-crypto = "0.2"
crc = "1"
rand = "0.8"
base64 = "0.13"
serde = { version = "1", features = ["derive"] }
serde_json = "1"
tokio = { version = "1", features = ["rt", "net", "time", "macros"] }
pnet = "0.34"
