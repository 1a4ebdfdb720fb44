[package]
name = "event_hub"
version = "0.1.0"
edition = "2021"
publish = false

[dependencies]
axum = "*"
serde = { version = "*", features = ["derive"] }
tokio = { version = "*", features = ["macros", "rt-multi-thread", "net", "time", "process", "sync"] }
tokio-stream = { version = "*", features = ["sync"] }
