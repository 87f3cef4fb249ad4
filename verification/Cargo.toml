[package]
name = "blockundo"
version = "0.1.0"
edition = "2021"
publish = false

[dependencies]
bitcoin = "0.32"
bitcoin_slices = "*"
clap = { version = "4", features = ["derive"] }
env_logger = "0.11"
log = "0.4"
ureq = { version = "3", default-features = false }
