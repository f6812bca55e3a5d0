[package]
name = "chatcore"
version = "0.1.0"
edition = "2021"
publish = false

[dependencies]
serde_json = "*"
serde = { version = "*", features = ["derive"] }
tokio = { version = "*", features = ["rt-multi-thread", "macros", "sync"] }
tokio-stream = "*"
futures = "*"
reqwest = { version = "*", default-features = false, features = ["json", "stream"] }
eventsource-stream = "*"
axum = "*"
uuid = { version = "*", features = ["v7"] }
