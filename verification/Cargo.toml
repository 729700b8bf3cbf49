[package]
name = "rp_universe_ai"
version = "0.1.0"
edition = "2021"
publish = false

[dependencies]
serde_json = "1"
url = "2"
base64 = "0.22"
reqwest = { version = "0.12", default-features = false, features = ["rustls-tls", "stream"] }
tokio = { version = "1", features = ["macros", "sync", "rt"] }
futures-util = "0.3"
