[package]
name = "wanderling_service"
version = "0.1.0"
edition = "2021"
publish = false

[dependencies]
anyhow = "*"
axum = "*"
serde = { version = "*", features = ["derive"] }
serde_json = "*"
tokio = { version = "*", features = ["fs", "io-util", "macros", "net", "rt-multi-thread"] }
tower-http = { version = "*", features = ["cors"] }
