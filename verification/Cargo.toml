[package]
name = "openc2"
version = "0.1.0"
edition = "2021"
publish = false

[dependencies]
serde_json = "1"
serde_cbor = "0.11"
url = "2"
clap = { version = "4", features = ["derive"] }
futures = "0.3"
