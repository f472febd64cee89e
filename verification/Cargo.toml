[package]
name = "anytls"
version = "0.3.0"
edition = "2021"
publish = false

[dependencies]
bytes = "1"
tokio = { version = "1.48", features = ["full"] }
thiserror = "*"
anyhow = "1"
tracing = "0.1"
