[package]
name = "csfloat_monitor"
version = "0.1.0"
edition = "2021"
publish = false

[dependencies]
chrono = "=0.4.45"
serde = { version = "*", features = ["derive"] }
serde_json = "*"
tokio = { version = "*", features = ["full"] }
reqwest = { version = "*", default-features = false, features = ["json", "rustls-tls"] }
teloxide = { version = "=0.13.0", default-features = false, features = ["rustls"] }
takecell = "=0.1.1"
sqlx = { version = "*", default-features = false, features = ["runtime-tokio-rustls", "postgres", "chrono"] }
dotenvy = "*"
tracing = "*"
tracing-appender = "*"
tracing-subscriber = { version = "*", features = ["env-filter"] }
circular-buffer = "*"
