[package]
name = "kpdf"
version = "0.1.0"
edition = "2021"
publish = false

[dependencies]
semver = "1"
serde = { version = "1", features = ["derive"] }
serde_json = "1"
anyhow = "1"
sled = "0.34"
reqwest = { version = "0.12", default-features = false, features = ["blocking", "json", "rustls-tls"] }
pdfium-render = "0.8"
