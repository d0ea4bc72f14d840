[package]
name = "offeryn"
version = "0.1.0"
edition = "2021"
publish = false

[dependencies]
uuid = { version = "*", features = ["v4"] }
axum = "*"
tokio = { version = "*", features = ["sync", "time", "rt-multi-thread", "macros"] }
futures = "*"
async-stream = "*"
serde = { version = "*", features = ["derive"] }
serde_json = "*"
