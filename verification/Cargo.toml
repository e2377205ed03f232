[package]
name = "omoi"
version = "0.1.0"
edition = "2021"
publish = false

[dependencies]
sled = "0.34"
chrono = "0.4"
serde = { version = "1", features = ["derive"] }
toml = "0.8"
mac_address = "1"
