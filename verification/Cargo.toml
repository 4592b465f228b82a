[package]
name = "wechat_db_manager"
version = "0.1.0"
edition = "2021"
publish = false

[dependencies]
rusqlite = { version = "=0.40.2", features = ["bundled-sqlcipher"] }
serde = { version = "=1.0.229", features = ["derive"] }
serde_json = "=1.0.151"
