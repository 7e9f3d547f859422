[package]
name = "okayeg"
version = "0.1.0"
edition = "2021"
publish = false

[dependencies]
uuid = { version = "*", features = ["v4"] }
chrono = { version = "*", features = ["serde"] }
tokio = { version = "*", features = ["macros", "rt-multi-thread", "signal", "sync"] }
sqlx = { version = "*", default-features = false, features = ["runtime-tokio", "postgres", "chrono", "uuid", "macros"] }
axum = "*"
tmi = "*"
anyhow = "*"
serde = { version = "*", features = ["derive"] }
serde_json = "*"
tower = "*"
tower-http = { version = "*", features = ["cors"] }
tracing = "*"
tracing-subscriber = "*"
dotenv = "*"
