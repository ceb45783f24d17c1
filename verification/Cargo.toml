[package]
name = "universe"
version = "0.1.0"
edition = "2021"
publish = false

[dependencies]
uuid = { version = "1", features = ["v4", "serde"] }
serde = { version = "1", features = ["derive"] }
serde_json = "1"
axum = "0.8"
tokio = { version = "1", features = ["macros", "rt-multi-thread", "net", "time"] }
sqlx = { version = "0.8", default-features = false, features = ["postgres", "runtime-tokio", "uuid", "time", "json", "derive"] }
time = { version = "0.3", features = ["serde"] }
argon2 = "0.5"
jsonwebtoken = "9"
once_cell = "1"
dotenvy = "0.15"
tracing = "0.1"
tracing-subscriber = "0.3"
rand = "*"
