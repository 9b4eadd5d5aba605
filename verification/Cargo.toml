[package]
name = "backend"
version = "0.1.0"
edition = "2021"
publish = false

[dependencies]
actix-files = "0.6"
actix-web = "4"
chrono = "0.4"
flutter_rust_bridge = "*"
log = "0.4"
open = "*"
serde = { version = "1", features = ["derive"] }
serde_json = "1"
