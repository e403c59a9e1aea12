[package]
name = "wuff"
version = "0.1.0"
edition = "2021"
publish = false

[dependencies]
brotli-decompressor = "*"
flate2 = "*"

[dev-dependencies]
brotli = "*"
