[package]
name = "pigeon-mobile-core"
version = "0.1.0"
edition = "2021"
publish = false

[dependencies]
base64 = "0.22"
serde_json = "1"
rusqlite = { version = "0.32", features = ["bundled"] }
reqwest = { version = "0.12", default-features = false, features = ["json", "rustls-tls"] }
thiserror = "1"
tokio = { version = "1", features = ["rt-multi-thread", "time", "macros"] }
uniffi = { version = "0.28", features = ["tokio", "cli"] }
