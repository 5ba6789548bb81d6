[package]
name = "ipam"
version = "0.1.0"
edition = "2021"
publish = false

[dependencies]
axum = "0.7"
bcrypt = "0.15"
bincode = "1"
dotenv = "0.15"
futures = "0.3"
ipnet = { version = "2", features = ["serde"] }
jsonwebtoken = "9"
serde = { version = "1", features = ["derive"] }
serde_json = "1"
sqlx = { version = "0.8", default-features = false, features = ["sqlite", "runtime-tokio", "uuid"] }
tera = { version = "1", default-features = false }
time = "0.3"
tokio = { version = "1", features = ["rt-multi-thread", "macros", "net", "sync"] }
tower = "0.5"
tower-http = { version = "0.6", features = ["compression-gzip", "compression-deflate", "compression-br", "fs", "trace"] }
tracing = "0.1"
tracing-subscriber = { version = "0.3", features = ["env-filter"] }
uuid = { version = "1", features = ["v4", "serde"] }
