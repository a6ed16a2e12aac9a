[package]
name = "lanshare"
version = "0.1.0"
edition = "2021"
publish = false

[dependencies]
percent-encoding = "=2.3.2"
qrcode = "=0.14.1"
image = { version = "=0.25.10", default-features = false, features = ["png"] }
chrono = { version = "=0.4.45", default-features = false, features = ["alloc", "std", "now"] }
mime_guess = "=2.0.5"
local-ip-address = "=0.6.13"
serde = { version = "=1.0.229", features = ["derive"] }
serde_json = "=1.0.154"
thiserror = "=2.0.21"
tokio = { version = "=1.54.1", features = ["rt-multi-thread", "macros", "net", "fs", "io-util", "sync", "time"] }
axum = { version = "=0.8.9", features = ["multipart"] }
tower-http = { version = "=0.6.11", features = ["cors", "limit", "trace"] }
tracing = "=0.1.44"
tracing-subscriber = { version = "=0.3.23", default-features = false, features = ["fmt", "std", "ansi"] }
tauri = { version = "=2.12.5", default-features = false }
