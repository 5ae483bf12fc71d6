[package]
name = "task_server"
version = "0.1.0"
edition = "2021"
publish = false

[dependencies]
anyhow = "1"
axum = "0.7"
axum-login = "0.15"
dotenv = "0.15"
garde = { version = "0.20", features = ["derive"] }
http = "1"
openidconnect = "3.5"
serde = { version = "1", features = ["derive"] }
serde_json = "1"
sqlx = { version = "0.7", default-features = false, features = ["sqlite", "runtime-tokio", "macros"] }
tokio = { version = "1", features = ["full"] }
tower-http = { version = "0.5", features = ["cors"] }
tower-sessions-sqlx-store = { version = "0.12", features = ["sqlite"] }
uuid = { version = "1", features = ["v4"] }
