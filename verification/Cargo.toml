[package]
name = "glia_sdk"
version = "0.1.0"
edition = "2021"
publish = false

[dependencies]
serde = { version = "1", features = ["derive"] }
serde_json = "1"
thiserror = "1"
url = "2"
tokio = { version = "1", features = ["net", "sync", "time", "rt", "macros"] }
tokio-tungstenite = "0.21"
futures-util = { version = "0.3", features = ["sink"] }
