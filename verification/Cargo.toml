[package]
name = "finsight"
version = "0.1.0"
edition = "2021"
publish = false

[dependencies]
serde_json = "1"
sqlx = { version = "0.8", default-features = false, features = ["runtime-tokio", "sqlite"] }
tauri = { version = "2", default-features = false }
tokio = { version = "1", features = ["macros", "rt-multi-thread"] }
