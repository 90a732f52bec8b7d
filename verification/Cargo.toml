[package]
name = "fleet_api"
version = "0.1.0"
edition = "2021"
publish = false

[dependencies]
axum = "=0.8.9"
jsonwebtoken = "=9.3.1"
serde = { version = "=1.0.229", features = ["derive"] }
serde_json = { version = "=1.0.154", features = ["raw_value"] }
sqlx = { version = "=0.8.6", default-features = false, features = ["migrate", "runtime-tokio", "sqlite"] }
tokio = { version = "=1.54.1", features = ["macros", "net", "rt-multi-thread", "time"] }
uuid = { version = "=1.29.0", features = ["v4"] }
