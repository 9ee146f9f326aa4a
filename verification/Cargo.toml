[package]
name = "blog_search_service"
version = "0.1.0"
edition = "2021"
publish = false

[dependencies]
anyhow = "*"
axum = "*"
serde = { version = "*", features = ["derive"] }
serde_json = "*"
thiserror = "*"
tokio = { version = "*", features = ["macros", "rt-multi-thread"] }
toml = "*"
tower-http = { version = "*", features = ["cors", "fs", "trace"] }
tracing = "*"
tracing-subscriber = "*"
url = "*"
vercel_runtime = "*"
walkdir = "*"
