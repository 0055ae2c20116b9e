[package]
name = "svg_server"
version = "0.1.0"
edition = "2021"
publish = false

[dependencies]
sha2 = "0.10"
rand = "0.8"
rand_chacha = "0.3"
rand_core = "0.6"
base64 = "0.13"
