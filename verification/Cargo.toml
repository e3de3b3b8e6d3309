[package]
name = "workbuddy_checkin"
version = "0.1.0"
edition = "2021"
publish = false

[dependencies]
axum = "*"
chrono = "0.4"
serde = { version = "1", features = ["derive"] }
serde_json = "1"
tokio = { version = "1", features = ["sync", "net", "rt", "macros"] }
