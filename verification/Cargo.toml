[package]
name = "korean_dict"
version = "0.1.0"
edition = "2021"
publish = false

[dependencies]
csv = "1"
serde = { version = "1", features = ["derive"] }
serde_json = "1"
roxmltree = "0.19"
axum = { version = "0.6", features = ["multipart"] }
tokio = { version = "1", features = ["macros", "rt-multi-thread"] }
sqlx = { version = "0.7", features = ["sqlite", "runtime-tokio"] }
reqwest = { version = "0.11", default-features = false, features = ["rustls-tls"] }
futures = "0.3"
clap = { version = "4", features = ["derive"] }
dotenvy = "0.15"
env_logger = "0.10"
log = "0.4"
tower-http = { version = "0.4", features = ["fs"] }
anyhow = "1"
thiserror = "1"
