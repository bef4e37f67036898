[package]
name = "backend"
version = "0.1.0"
edition = "2021"
publish = false

[dependencies]
axum = "0.8"
clap = { version = "4", features = ["derive"] }
serde = { version = "1", features = ["derive"] }
serde_json = "1"
tokio = { version = "1", features = ["full"] }
mdns-sd = "*"
reqwest = { version = "0.12", default-features = false, features = ["json"] }
tokio-tungstenite = "*"
futures-util = { version = "0.3", features = ["sink"] }
