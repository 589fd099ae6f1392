[package]
name = "mavshark"
version = "0.1.0"
edition = "2021"
publish = false

[dependencies]
mavlink = { version = "*", features = ["serde"] }
serde_json = "*"
