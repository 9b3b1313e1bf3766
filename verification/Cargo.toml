[package]
name = "tableturfer"
version = "0.1.0"
edition = "2021"
publish = false

[dependencies]
rand = "0.8"
serde = { version = "1", features = ["derive"] }
serde_json = "1"
axum = { version = "*", features = ["ws"] }
tokio = { version = "1", features = ["macros", "net", "rt-multi-thread", "sync"] }
futures = "0.3"
uuid = { version = "1", features = ["v4"] }
log = "0.4"
env_logger = "*"
config = "*"
