[package]
name = "lefocus"
version = "0.1.0"
edition = "2021"
publish = false

[dependencies]
image = "*"
image_hasher = "*"
uuid = { version = "*", features = ["v4"] }
chrono = "*"
serde = { version = "*", features = ["derive"] }
serde_json = "*"
