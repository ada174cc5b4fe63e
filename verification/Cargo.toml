[package]
name = "metrix"
version = "0.1.0"
edition = "2021"
publish = false

[dependencies]
serde_json = "1"
actix-web = { version = "4", default-features = false }
axum = "0.7"
futures = "0.3"
reqwest = { version = "0.12", default-features = false }
tokio = { version = "1", features = ["rt", "net", "time", "macros"] }
tracing = "0.1"
tracing-subscriber = { version = "0.3", default-features = false, features = ["registry"] }
