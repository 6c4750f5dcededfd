[package]
name = "rucat"
version = "0.1.0"
edition = "2021"
publish = false

[dependencies]
base64 = "0.22"
syntect = { version = "5", default-features = false, features = ["default-fancy"] }
dirs = "5"
serde = { version = "1", features = ["derive"] }
toml = "0.8"
walkdir = "2"

[dev-dependencies]
serde_json = "1"
