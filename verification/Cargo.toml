[package]
name = "relay"
version = "0.1.0"
edition = "2021"
publish = false

[dependencies]
rand = "0.8"
futures = "0.1"
tokio-core = "0.1"
tokio-io = "0.1"
tokio-tls = "0.2"
native-tls = "0.2"
websocket = { version = "0.20", default-features = false, features = ["async"] }
bytes = "0.4"
serde = "1"
serde_derive = "1"
serde_yaml = "0.8"
