[package]
name = "glop"
version = "0.1.0"
edition = "2021"
publish = false

[dependencies]
futures = "0.1"
futures-cpupool = "0.1"
serde = { version = "1", features = ["derive"] }
serde_json = "1"
tokio-core = "0.1"
tokio-service = "0.1"
