[package]
name = "tlq_client"
version = "0.1.0"
edition = "2021"
publish = false

[dependencies]
uuid = { version = "1", features = ["v7"] }
tokio = { version = "1", features = ["full"] }

[dev-dependencies]
serde_json = "1"
