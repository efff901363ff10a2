[package]
name = "hyperid"
version = "0.1.0"
edition = "2021"
publish = false

[dependencies]
base64 = "0.13"
uuid = { version = "1", features = ["v4"] }
