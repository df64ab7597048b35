[package]
name = "aliyun-tools"
version = "0.1.0"
edition = "2021"
publish = false

[dependencies]
anyhow = "1"
base64 = "0.22"
clap = { version = "4", features = ["derive"] }
hmac = "0.12"
percent-encoding = "2"
reqwest = { version = "0.12", default-features = false, features = ["blocking", "rustls-tls"] }
serde_json = "1"
sha1 = "0.10"
uuid = { version = "1", features = ["v4"] }
