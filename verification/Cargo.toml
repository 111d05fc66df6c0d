[package]
name = "umbra"
version = "0.1.0"
edition = "2021"
publish = false

[dependencies]
url = "=2.5.8"
percent-encoding = "=2.3.2"
base64 = "=0.22.1"
sha2 = "=0.10.9"
uuid = { version = "=1.29.0", features = ["v4"] }
semver = "=1.0.28"
chrono = "=0.4.45"
rand = "=0.8.8"
serde = { version = "=1.0.229", features = ["derive"] }
serde_json = "=1.0.154"
thiserror = "=2.0.21"
reqwest = { version = "=0.12.28", default-features = false, features = ["blocking", "rustls-tls", "json"] }
zip = { version = "2", default-features = false, features = ["deflate"] }
