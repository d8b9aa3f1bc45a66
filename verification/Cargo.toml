[package]
name = "bifrost_ha"
version = "0.1.0"
edition = "2021"
publish = false

[dependencies]
serde = { version = "1", features = ["derive"] }
serde_json = "1"
log = "0.4"
futures = "0.3"
tokio = { version = "1", features = ["sync", "time", "net", "macros", "rt"] }
tokio-tungstenite = { version = "*", features = ["native-tls"] }
native-tls = "0.2"
reqwest = { version = "0.12", features = ["json"] }
