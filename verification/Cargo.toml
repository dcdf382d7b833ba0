[package]
name = "plur"
version = "0.1.0"
edition = "2021"
publish = false

[dependencies]
serde = { version = "1", features = ["derive"] }
serde_json = "1"
toml = "0.8"
walkdir = "2"
zip = { version = "0.6", default-features = false, features = ["deflate"] }
shellexpand = "3"
