[package]
name = "upload_core"
version = "0.1.0"
edition = "2021"
publish = false

[dependencies]
chrono = "*"
uuid = { version = "*", features = ["v4"] }
actix-web = "*"
actix-multipart = "*"
actix-files = "*"
tokio = { version = "*", features = ["full"] }
futures-util = "*"
log = "*"
env_logger = "*"
serde = { version = "*", features = ["derive"] }
serde_json = "*"
scopeguard = "*"
