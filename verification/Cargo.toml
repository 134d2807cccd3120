[package]
name = "fabric_installer"
version = "0.1.0"
edition = "2021"
publish = false

[dependencies]
anyhow = "1"
curl = "0.4"
reqwest = { version = "0.12", default-features = false }
serde_json = "1"
tokio = { version = "1", features = ["rt-multi-thread", "macros"] }
