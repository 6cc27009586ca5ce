[package]
name = "cdno_domain"
version = "0.1.0"
edition = "2021"
publish = false

[dependencies]
chrono = { version = "0.4", default-features = false, features = ["std", "clock"] }
serde_yaml = "0.9"
serde = { version = "1", features = ["derive"] }
serde_json = "1"
thiserror = "1"
