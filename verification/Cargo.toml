[package]
name = "ron"
version = "0.8.0"
edition = "2021"
publish = false

[dependencies]
base64 = "0.13"
serde = "1"
