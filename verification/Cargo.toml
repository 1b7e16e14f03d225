[package]
name = "netmeter"
version = "0.1.0"
edition = "2021"
publish = false

[dependencies]
anyhow = "*"
axum = "*"
chrono = "*"
serde = { version = "*", features = ["derive"] }
serde-inline-default = "*"
serde_json = "*"
sqlx = { version = "*", features = ["sqlite", "runtime-tokio", "macros"] }
time = { version = "*", features = ["formatting"] }
tokio = { version = "*", features = ["macros", "net", "rt-multi-thread", "sync", "time"] }
tokio-cron-scheduler = "*"
tower-http = { version = "*", features = ["catch-panic", "fs", "validate-request"] }
tracing = "*"
tracing-subscriber = "*"
