[package]
name = "fileserve"
version = "0.1.0"
edition = "2021"
publish = false

[dependencies]
axum = "0.8"
base64 = "0.22"
bcrypt = "*"
dotenvy = "0.15"
log = "0.4"
mime_guess = "2"
serde = { version = "1", features = ["derive"] }
serde_json = "1"
tokio = { version = "1", features = ["rt-multi-thread", "macros", "net", "fs"] }
tokio-util = { version = "0.7", features = ["io"] }
tracing-subscriber = "0.3"
