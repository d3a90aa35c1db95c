[package]
name = "eaicoding_mcp"
version = "0.1.2"
edition = "2021"
publish = false

[dependencies]
encoding_rs = "0.8"
base64 = "0.22"
serde = { version = "1", features = ["derive"] }
serde_json = "1"
tokio = { version = "1", features = ["full"] }
rayon = "1"
reqwest = { version = "0.12", default-features = false, features = ["stream", "rustls-tls"] }
futures-util = "0.3"
rand = "0.8"
