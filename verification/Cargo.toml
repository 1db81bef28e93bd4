[package]
name = "typst_gateway"
version = "0.1.0"
edition = "2021"
publish = false

[dependencies]
mime_guess = "*"
axum = "*"
tokio = { version = "*", features = ["full"] }
tokio-util = { version = "*", features = ["io"] }
tower-sessions = "*"
surrealdb = { version = "*", default-features = false, features = ["protocol-ws", "rustls"] }
tower-sessions-surrealdb-store = "*"
dotenvy = "*"
env_logger = "*"
log = "*"
time = "*"
serde = { version = "*", features = ["derive"] }
