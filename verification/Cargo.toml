[package]
name = "dither_core"
version = "0.1.0"
edition = "2021"
publish = false

[dependencies]
image = "*"
base64 = "*"
serde = { version = "*", features = ["derive"] }
serde_json = "*"
