[package]
name = "appmanager"
version = "0.1.0"
edition = "2021"
publish = false

[dependencies]
pinyin = "0.10"
serde = { version = "1", features = ["derive"] }
serde_json = "1"
tauri = { version = "2", default-features = false, features = ["wry"] }
zip = { version = "2", default-features = false, features = ["deflate"] }
