[package]
name = "minime"
version = "0.1.0"
edition = "2021"
publish = false

[dependencies]
censor = "*"
uwuify = "*"
rand = "0.8"
serenity = { version = "0.11", default-features = false, features = ["builder", "cache", "client", "framework", "gateway", "model", "http", "standard_framework", "utils", "rustls_backend"] }
sqlx = { version = "0.6", default-features = false, features = ["runtime-tokio-rustls", "postgres", "migrate"] }
tokio = { version = "1", features = ["macros", "rt-multi-thread", "signal", "time", "sync"] }
tracing = "0.1"
tracing-subscriber = { version = "0.3", features = ["env-filter"] }
uuid = { version = "1", features = ["v4"] }
dotenv = "0.15"
