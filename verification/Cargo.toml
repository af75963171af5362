[package]
name = "viperpad"
version = "0.1.0"
edition = "2021"
publish = false

[dependencies]
axum = "=0.8.9"
axum-server = { version = "=0.7.3", features = ["tls-rustls"] }
libreoffice_convert_rust = "=0.1.0"
pdf-extract = "=0.12.1"
pulldown-cmark = "=0.13.6"
rdocx = "=0.10.1"
reqwest = { version = "=0.12.28", default-features = false, features = ["rustls-tls"] }
roxmltree = "=0.21.2"
serde = { version = "=1.0.229", features = ["derive"] }
tokio = { version = "=1.54.1", features = ["full"] }
zip = { version = "=9.2.2", default-features = false, features = ["deflate"] }
