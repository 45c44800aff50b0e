[package]
name = "page_pool"
version = "0.1.0"
edition = "2021"
publish = false

[dependencies]
uuid = { version = "*", features = ["v4"] }
axum = "*"
axum-extra = { version = "*", features = ["cookie"] }
tokio = { version = "*", features = ["full"] }
anyhow = "*"
thiserror = "*"
serde = { version = "*", features = ["derive"] }
dotenvy = "*"
tracing = "*"
tracing-subscriber = { version = "*", features = ["env-filter"] }
html-escape = "*"
rand = "*"
regex = "*"
once_cell = "*"
time = { version = "*", features = ["formatting"] }
groq-api-rust = "*"
