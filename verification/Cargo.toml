[package]
name = "stego_transfer"
version = "0.1.0"
edition = "2021"
publish = false

[dependencies]
futures = "0.3"
image = "0.21"
steganography = "*"
tokio = { version = "1", features = ["full"] }
