[package]
name = "natukage"
version = "0.1.0"
edition = "2021"
publish = false

[dependencies]
env_logger = "*"
log = "*"
xxhash-rust = { version = "*", features = ["xxh3"] }
image = "*"
