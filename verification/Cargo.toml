[package]
name = "apollo_client"
version = "0.1.0"
edition = "2021"
publish = false

[dependencies]
anyhow = "1"
reqwest = { version = "*", default-features = false }
tokio = { version = "1", features = ["fs", "io-util"] }
