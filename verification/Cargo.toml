[package]
name = "crate_helper"
version = "0.1.0"
edition = "2021"
publish = false

[dependencies]
semver = "=1.0.28"
urlencoding = "=2.1.3"
serde = { version = "=1.0.229", features = ["derive"] }
serde_json = "=1.0.154"
anyhow = "=1.0.104"
tokio = { version = "=1.54.1", features = ["full"] }
tower-lsp = "=0.20.0"
reqwest = { version = "=0.12.28", default-features = false, features = ["json", "rustls-tls"] }
zed_extension_api = "*"
