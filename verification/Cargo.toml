[package]
name = "file_browser"
version = "0.1.0"
edition = "2021"
publish = false

[dependencies]
axum = "0.7"
humantime = "2"
path-clean = "1"
pathdiff = "0.2"
percent-encoding = "2"
serde = { version = "1", features = ["derive"] }
serde_json = "1"
tokio = { version = "1", features = ["full"] }
tower-http = { version = "0.5", features = ["cors", "fs"] }
tracing = "0.1"
tracing-subscriber = { version = "0.3", features = ["env-filter"] }
urlencoding = "2"
