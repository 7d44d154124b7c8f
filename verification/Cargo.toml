[package]
name = "chunk_server"
version = "0.1.0"
edition = "2021"
publish = false

[dependencies]
chrono = { version = "=0.4.45", features = ["serde"] }
serde_json = "=1.0.151"
serde = { version = "=1.0.229", features = ["derive"] }
tokio = { version = "=1.53.2", features = ["full"] }
sqlx = { version = "=0.9.0", default-features = false, features = ["postgres", "runtime-tokio", "macros", "chrono"] }
