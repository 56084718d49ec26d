[package]
name = "base64_codec"
version = "0.1.0"
edition = "2021"
publish = false

[dependencies]
clap = { version = "4", features = ["derive"] }
device_query = "*"
enigo = "0.1"
