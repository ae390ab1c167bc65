[package]
name = "achievement_overlay"
version = "0.1.0"
edition = "2021"
publish = false

[dependencies]
fd-lock = "3"
reqwest = { version = "0.11", default-features = false, features = ["blocking", "cookies", "json", "rustls-tls"] }
serde = { version = "1", features = ["derive"] }
serde_json = "1"
winapi = { version = "0.3", features = ["winuser"] }
