[package]
name = "model_radar"
version = "0.1.0"
edition = "2021"
publish = false

[dependencies]
chrono = { version = "0.4", default-features = false, features = ["std", "clock"] }
serde = { version = "1", features = ["derive"] }
serde_json = "1"
thiserror = "2"
tokio = { version = "1", features = ["sync", "time", "macros", "rt"] }
reqwest = { version = "0.12", default-features = false, features = ["rustls-tls"] }
tauri = { version = "2", default-features = false }
