[package]
name = "lightws"
version = "0.1.0"
edition = "2021"
publish = false

[dependencies]
base64 = "0.21"
httparse = "1"
rand = "0.8"
sha1 = "0.10"
