[package]
name = "exofs"
version = "0.1.0"
edition = "2021"
publish = false

[dependencies]
blake3 = { version = "1", default-features = false, features = ["pure"] }
spin = "0.9"
