[package]
name = "hoi4ms"
version = "0.1.0"
edition = "2021"
publish = false

[dependencies]
serde = { version = "=1.0.229", features = ["derive"] }
serde_json = "=1.0.154"
uuid = { version = "=1.29.0", features = ["v4"] }
walkdir = "=2.5.0"
base64 = "=0.22.1"
image = { version = "=0.25.10", default-features = false, features = ["png", "tga", "dds", "bmp", "gif", "jpeg"] }
