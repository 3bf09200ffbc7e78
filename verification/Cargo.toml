[package]
name = "policy"
version = "0.1.0"
edition = "2021"
publish = false

[dependencies]
corim = { version = "=0.1.4", features = ["profile-intel"] }
ring = "=0.17.14"
serde = { version = "=1.0.229", features = ["derive"] }
serde_json = { version = "=1.0.154", features = ["raw_value"] }
