[package]
name = "toolkit"
version = "0.1.0"
edition = "2021"
publish = false

[dependencies]
base64 = "0.13"
chrono = "0.4"
rand = "0.8"
rust-crypto = "0.2"
zip = { version = "0.6", default-features = false }
