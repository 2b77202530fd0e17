[package]
name = "config_generator"
version = "0.1.0"
edition = "2021"
publish = false

[dependencies]
base64 = "0.22"
chrono = "0.4"
futures = "0.3"
qrcode = { version = "0.14", default-features = false }
rand = "0.8"
serde = { version = "1", features = ["derive"] }
serde_json = "1"
tokio = { version = "1", features = ["full"] }
tokio-native-tls = "0.3"
urlencoding = "2"
uuid = { version = "1", features = ["v4"] }
