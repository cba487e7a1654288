[package]
name = "helix"
version = "0.1.0"
edition = "2021"
publish = false

[dependencies]
sha2 = "=0.11.1"
hex = "=0.4.3"
url = "=2.5.8"
hmac = "*"
serde = { version = "=1.0.229", features = ["derive"] }
serde_json = "=1.0.154"
toml = "=1.1.8"
chrono = "=0.4.45"
dirs = "=7.0.0"
anyhow = "=1.0.104"
thiserror = "=2.0.21"
clap = { version = "=4.6.7", features = ["derive"] }
reqwest = { version = "=0.12.28", default-features = false, features = ["json", "blocking", "rustls-tls"] }
axum = "=0.7.9"
tokio = { version = "=1.54.1", features = ["macros", "rt-multi-thread", "net"] }
