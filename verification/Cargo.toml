[package]
name = "larql"
version = "0.1.0"
edition = "2021"
publish = false

[dependencies]
half = "=2.7.1"
memmap2 = "=0.9.12"
ndarray = "=0.16.1"
serde = { version = "=1.0.229", features = ["derive"] }
serde_json = "=1.0.154"
tokenizers = { version = "=0.23.2", default-features = false, features = ["fancy-regex"] }
