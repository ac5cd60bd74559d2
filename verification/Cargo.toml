[package]
name = "planner_backend"
version = "0.1.0"
edition = "2021"
publish = false

[dependencies]
anyhow = "=1.0.104"
axum = { version = "=0.8.9", features = ["multipart"] }
axum-extra = { version = "=0.10.3", features = ["typed-header"] }
bcrypt = "=0.19.3"
chrono = { version = "=0.4.45", features = ["serde"] }
jsonwebtoken = "=9.3.1"
serde = { version = "=1.0.229", features = ["derive"] }
serde_json = { version = "=1.0.154", features = ["raw_value"] }
tokio = { version = "=1.54.1", features = ["full"] }
tower-http = { version = "=0.6.11", features = ["cors"] }
tracing = "=0.1.44"
tracing-subscriber = { version = "=0.3.23", features = ["env-filter"] }
utoipa = { version = "=5.5.0", features = ["chrono"] }
utoipa-swagger-ui = { version = "=9.0.2", features = ["axum", "vendored"] }
uuid = { version = "=1.29.0", features = ["v4"] }
