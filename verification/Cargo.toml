[package]
name = "artnet_hub"
version = "0.1.0"
edition = "2021"
publish = false

[dependencies]
artnet_protocol = "*"
serde = { version = "*", features = ["derive"] }
serde_json = "*"
