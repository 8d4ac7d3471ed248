[package]
name = "async_session"
version = "0.1.0"
edition = "2021"
publish = false

[dependencies]
base64 = "=0.22.1"
blake3 = "=1.8.7"
rand = "=0.8.8"
time = "=0.3.55"
dashmap = "6"
serde = { version = "=1.0.229", features = ["derive"] }
serde_json = "=1.0.151"
async-trait = "=0.1.92"
cookie = "=0.18.2"
uuid = { version = "=1.27.0", features = ["v4"] }
