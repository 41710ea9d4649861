[package]
name = "chat_core"
version = "0.1.0"
edition = "2021"
publish = false

[dependencies]
serde_json = "1"
serde = { version = "1", features = ["derive"] }
tokio = { version = "1", features = ["macros", "rt-multi-thread", "sync", "time", "signal", "net"] }
axum = { version = "0.7", features = ["ws"] }
futures = "0.3"
anyhow = "1"
dotenvy = "0.15"
mime_guess = "2"
sqlx = { version = "0.8", default-features = false, features = ["runtime-tokio", "sqlite"] }
