[package]
name = "dashboard"
version = "0.1.0"
edition = "2021"
publish = false

[dependencies]
axum = { version = "0.8", features = ["ws"] }
ctrlc = "3"
serde = { version = "1", features = ["derive"] }
serde_json = "1"
sysinfo = "*"
tokio = { version = "1", features = ["full"] }
