[package]
name = "open_xiaoai"
version = "0.1.0"
edition = "2021"
publish = false

[dependencies]
uuid = { version = "*", features = ["v4"] }
rand = "*"
tokio = { version = "*", features = ["full"] }
tokio-tungstenite = "*"
futures = "*"
serde = { version = "*", features = ["derive"] }
serde_json = "*"
