[package]
name = "ai_career_copilot"
version = "0.1.0"
edition = "2021"
publish = false

[dependencies]
anyhow = "=1.0.104"
async-stream = "=0.3.6"
axum = { version = "=0.8.9", features = ["multipart"] }
axum-extra = { version = "=0.10.3", features = ["cookie"] }
base64 = "=0.22.1"
bytes = "=1.12.1"
chrono = "=0.4.45"
dotenvy = "=0.15.7"
encoding_rs = "=0.8.44"
futures-util = "=0.3.34"
jsonwebtoken = "=9.3.1"
mime_guess = "=2.0.5"
pdf-extract = "=0.7.12"
quick-xml = "=0.38.4"
rand = "=0.9.5"
reqwest = { version = "=0.12.28", default-features = false, features = ["json", "stream", "rustls-tls"] }
rust-embed = "=8.13.0"
serde = { version = "=1.0.229", features = ["derive"] }
serde_json = "=1.0.154"
sha2 = "=0.10.9"
sqlx = { version = "=0.8.6", default-features = false, features = ["runtime-tokio", "sqlite", "derive", "migrate"] }
time = "=0.3.55"
tokio = { version = "=1.54.1", features = ["full"] }
tower-http = { version = "=0.6.11", features = ["compression-gzip", "cors", "trace"] }
tracing = "=0.1.44"
tracing-subscriber = { version = "=0.3.23", features = ["env-filter"] }
url = "=2.5.8"
uuid = { version = "=1.29.1", features = ["v4"] }
zip = { version = "=2.6.1", default-features = false, features = ["deflate"] }
