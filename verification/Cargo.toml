[package]
name = "cipher_modes"
version = "0.1.0"
edition = "2021"

[dependencies]
aes = "0.8"
rand = "0.8"
