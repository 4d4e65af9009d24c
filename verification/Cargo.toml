[package]
name = "luna"
version = "0.1.0"
edition = "2021"
publish = false

[dependencies]
md5 = "*"
reqwest = { version = "*", default-features = false, features = ["json"] }
serde = { version = "*", features = ["derive"] }
serde_json = "*"
tokio = { version = "*", features = ["fs", "time", "macros", "rt", "sync"] }
tracing = "*"
chrono = "*"
meilisearch-sdk = "*"
axum = "*"
async-trait = "*"
utoipa = "*"
