[package]
name = "hss"
version = "0.1.0"
edition = "2021"
publish = false

[dependencies]
clap = { version = "4", features = ["derive"] }
rand = "0.8"
ring = "0.17"
sha256 = { version = "1", default-features = false }
