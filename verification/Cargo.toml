[package]
name = "cloudone"
version = "0.1.0"
edition = "2021"
publish = false

[dependencies]
aes-gcm = "=0.10.3"
anyhow = "=1.0.104"
axum = { version = "=0.8.9", features = ["multipart", "ws"] }
base64 = "=0.22.1"
bcrypt = "=0.17.1"
chrono = { version = "=0.4.45", default-features = false, features = ["clock", "std"] }
clap = { version = "=4.6.7", features = ["derive"] }
flate2 = "=1.1.10"
futures-util = { version = "=0.3.34", features = ["sink"] }
hex = "=0.4.3"
jsonwebtoken = { version = "=9.3.1", default-features = false }
libc = "=0.2.191"
mime_guess = "=2.0.5"
rand = "=0.8.8"
reqwest = { version = "=0.12.28", default-features = false, features = ["rustls-tls", "stream"] }
rustls = { version = "=0.23.46", default-features = false, features = ["ring", "std"] }
serde = { version = "=1.0.229", features = ["derive"] }
serde_json = { version = "=1.0.154", features = ["raw_value"] }
sha2 = "=0.10.9"
sqlx = { version = "=0.8.6", default-features = false, features = ["runtime-tokio", "sqlite"] }
tar = "=0.4.46"
tokio = { version = "=1.54.1", features = ["full"] }
tokio-util = { version = "=0.7.20", features = ["io"] }
tower-http = { version = "=0.6.11", features = ["cors"] }
url = "=2.5.8"
walkdir = "=2.5.0"
zip = { version = "=2.6.1", default-features = false, features = ["deflate"] }
