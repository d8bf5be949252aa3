[package]
name = "pool_claim"
version = "0.1.0"
edition = "2021"
publish = false

[dependencies]
clap = { version = "*", features = ["derive"] }
colored = "*"
ore-api = { version = "*", default-features = false }
reqwest = { version = "*", default-features = false }
spl-token = { version = "*", default-features = false }
tokio = { version = "*", features = ["time"] }
