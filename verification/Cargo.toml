[package]
name = "aivorelay"
version = "0.1.0"
edition = "2021"
publish = false

[dependencies]
keyring = { version = "=3.6.3", features = ["windows-native"] }
regex = "=1.13.1"
ferrous-opencc = "=0.4.0"
image = { version = "=0.25.10", default-features = false, features = ["png"] }
serde = { version = "=1.0.229", features = ["derive"] }
serde_json = "=1.0.154"
