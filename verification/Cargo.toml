[package]
name = "compression_pool"
version = "0.1.0"
edition = "2021"
publish = false

[dependencies]
anyhow = "1"
axum = { version = "0.8", features = ["multipart"] }
clap = { version = "4", features = ["derive"] }
filetime = "0.2"
futures-util = "0.3"
reqwest = { version = "0.12", default-features = false, features = ["json", "multipart", "stream"] }
serde = { version = "1", features = ["derive"] }
shell-words = "1"
tokio = { version = "1", features = ["full"] }
tokio-util = { version = "0.7", features = ["io"] }
toml = "0.8"
tracing = "0.1"
tracing-subscriber = { version = "0.3", features = ["env-filter"] }
url = "2"
uuid = { version = "1", features = ["v4", "serde"] }
