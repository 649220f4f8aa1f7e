[package]
name = "opener"
version = "0.1.0"
edition = "2021"
publish = false

[dependencies]
rand = "=0.8.8"
serde = { version = "1", features = ["derive"] }
serde_json = "1"
hmac = "=0.12.1"
sha2 = "=0.10.9"
