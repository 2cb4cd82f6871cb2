[package]
name = "homeserver_core"
version = "0.1.0"
edition = "2021"
publish = false

[dependencies]
serde_json = "1"
lru-cache = "0.1"
ruma-identifiers-validation = "0.9"
ipaddress = "0.1"
hickory-resolver = "0.24"
reqwest = { version = "0.12", default-features = false, features = ["rustls-tls"] }
tokio = { version = "1", features = ["rt-multi-thread", "net", "time", "sync"] }
