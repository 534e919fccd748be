[package]
name = "agent_memory"
version = "0.1.0"
edition = "2021"
publish = false

[dependencies]
axum = "0.7"
petgraph = "0.6"
reqwest = { version = "0.12", default-features = false, features = ["json"] }
serde = { version = "1", features = ["derive"] }
serde_json = "1"
tokio = { version = "1", features = ["full"] }
tracing = "0.1"
tracing-subscriber = "0.3"
urlencoding = "2"
uuid = { version = "1", features = ["v4"] }
