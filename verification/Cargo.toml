[package]
name = "ark-escrow"
version = "0.1.0"
edition = "2021"
publish = false

[dependencies]
anyhow = "1"
ark-core = "*"
ark-grpc = "*"
bitcoin = { version = "0.32", features = ["base64", "rand", "serde"] }
futures = "0.3"
magnus = "*"
rand = "0.8"
rustls = { version = "0.23", features = ["ring"] }
serde = { version = "1", features = ["derive"] }
serde_json = "1"
tokio = { version = "1", features = ["rt-multi-thread", "macros", "time"] }
tracing = "0.1"
tracing-subscriber = { version = "0.3", features = ["env-filter"] }
