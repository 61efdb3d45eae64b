[package]
name = "photolabeler"
version = "0.1.0"
edition = "2021"
publish = false

[dependencies]
mime_guess = "2"
chrono = "0.4"
axum = { version = "0.7", features = ["macros", "multipart"] }
tokio = { version = "1", features = ["rt-multi-thread", "macros", "fs", "net", "io-util"] }
tokio-util = { version = "0.7", features = ["io"] }
tower-http = { version = "0.5", features = ["trace"] }
sqlx = { version = "0.8", default-features = false, features = ["sqlite", "runtime-tokio", "json"] }
tera = { version = "1", default-features = false }
serde = { version = "1", features = ["derive"] }
thiserror = "1"
tracing = "0.1"
tracing-subscriber = "0.3"
dotenvy = "0.15"
futures = "0.3"
http-body-util = "0.1"
