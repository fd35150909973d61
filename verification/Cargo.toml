[package]
name = "silksongtool"
version = "0.1.0"
edition = "2021"
publish = false

[dependencies]
aes = "0.8"
base64 = "0.22"
cipher = { version = "0.4", features = ["block-padding"] }
ecb = "0.1"
serde_json = "1"
clap = { version = "4", features = ["derive"] }
