[package]
name = "vault_airlock"
version = "0.1.0"
edition = "2021"
publish = false

[dependencies]
anyhow = "=1.0.104"
async-trait = "=0.1.92"
axum = "=0.8.9"
clap = { version = "=4.6.7", features = ["derive", "env"] }
dialoguer = "=0.11.0"
keepass = "=0.17.0"
reqwest = { version = "=0.12.28", default-features = false, features = ["json", "rustls-tls"] }
secrecy = "=0.10.3"
serde = { version = "=1.0.229", features = ["derive"] }
serde_json = "=1.0.154"
tokio = { version = "=1.54.1", features = ["full"] }
tracing = "=0.1.44"
tracing-subscriber = { version = "=0.3.23", features = ["env-filter"] }
uuid = "=1.29.0"

[dev-dependencies]
keepass = { version = "=0.17.0", features = ["save_kdbx4"] }
