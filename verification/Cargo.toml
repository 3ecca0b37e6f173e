[package]
name = "lobview"
version = "0.1.0"
edition = "2021"
publish = false

[dependencies]
serde_json = "*"
chrono = "*"
serde = { version = "*", features = ["derive"] }
reqwest = { version = "*", default-features = false, features = ["json"] }
tokio = { version = "*", features = ["full"] }
tokio-tungstenite = "*"
futures = "*"
url = "*"
async-trait = "*"
thiserror = "*"
tracing = "*"
tracing-subscriber = "*"
