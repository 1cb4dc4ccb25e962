[package]
name = "turbo_tasks"
version = "0.1.0"
edition = "2021"
publish = false

[dependencies]
event-listener = "2"
tokio = { version = "1", features = ["rt-multi-thread", "sync", "time"] }
serde = { version = "1", features = ["derive"] }
serde_json = "1"
anyhow = "1"
