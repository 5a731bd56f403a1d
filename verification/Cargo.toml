[package]
name = "overlay_read"
version = "0.1.0"
edition = "2021"
publish = false

[dependencies]
pin-project = "*"
tokio = { version = "*", default-features = false, features = ["time"] }
