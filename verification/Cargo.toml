[package]
name = "shuaforge_core"
version = "0.1.5"
edition = "2021"
publish = false

[dependencies]
rand = "=0.9.5"
serde = { version = "=1.0.229", features = ["derive"] }
serde_json = "=1.0.154"
csv = "=1.4.0"
sha2 = "=0.10.9"
hex = "=0.4.3"
base64 = "=0.22.1"
zip = { version = "2", default-features = false, features = ["deflate"] }
