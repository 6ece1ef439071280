[package]
name = "floundr"
version = "0.1.0"
edition = "2021"
publish = false

[dependencies]
sha2 = "=0.10.9"
base64 = "=0.22.1"
bcrypt = "=0.15.1"
uuid = { version = "=1.29.0", features = ["v4"] }
chrono = "=0.4.45"
axum = "=0.7.9"
axum-server = { version = "0.7", features = ["tls-rustls"] }
tokio = { version = "=1.54.1", features = ["full"] }
tokio-util = { version = "=0.7.20", features = ["io"] }
futures = "=0.3.34"
bytes = "=1.12.1"
http = "=1.5.0"
tower = "=0.4.13"
tower-http = { version = "=0.5.2", features = ["trace"] }
serde = { version = "=1.0.229", features = ["derive"] }
serde_json = "=1.0.154"
jsonwebtoken = "=9.3.1"
sqlx = { version = "=0.7.4", features = ["sqlite", "runtime-tokio"] }
clap = { version = "=4.6.7", features = ["derive"] }
dotenvy = "=0.15.7"
dirs = "=5.0.1"
tracing = "=0.1.44"
tracing-subscriber = "=0.3.23"
