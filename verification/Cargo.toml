[package]
name = "fee_sweeper"
version = "0.1.0"
edition = "2021"
publish = false

[dependencies]
base64 = "0.21"
k256 = "0.13"
serde = { version = "1", features = ["derive"] }
serde_json = "1"
reqwest = { version = "0.11", default-features = false, features = ["blocking", "json"] }
