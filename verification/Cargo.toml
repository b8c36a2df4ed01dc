[package]
name = "soundpad_remote_client"
version = "0.1.0"
edition = "2021"
publish = false

[dependencies]
derivative = "2"
serde = { version = "1", features = ["derive"] }
serde-xml-rs = "0.6"
tokio = { version = "1", features = ["io-util", "macros", "net", "rt", "sync", "time"] }
tracing = "0.1"
