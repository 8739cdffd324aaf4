[package]
name = "soar_cli"
version = "0.1.0"
edition = "2021"
publish = false

[dependencies]
anyhow = "1"
backhand = "*"
blake3 = "1"
chrono = "0.4"
clap = { version = "4", features = ["derive"] }
futures = "0.3"
image = { version = "0.25", default-features = false, features = ["png"] }
indicatif = "0.17"
libc = "0.2"
regex = "1"
reqwest = { version = "0.12", default-features = false, features = ["rustls-tls", "stream", "json"] }
serde = { version = "1", features = ["derive"] }
serde_json = "1"
tokio = { version = "1", features = ["full"] }
tracing = "0.1"
tracing-subscriber = { version = "0.3", features = ["env-filter"] }
xattr = "1"
