[package]
name = "neurographrag"
version = "0.1.0"
edition = "2021"
publish = false

[dependencies]
blake3 = "=1.8.7"
chrono = { version = "=0.4.45", default-features = false, features = ["alloc", "std"] }
clap = { version = "=4.6.7", features = ["derive", "env"] }
serde = { version = "=1.0.229", features = ["derive"] }
serde_json = "=1.0.154"
thiserror = "=2.0.21"
anyhow = "=1.0.104"
tracing = "=0.1.44"
tracing-subscriber = { version = "=0.3.23", features = ["env-filter", "json"] }
rusqlite = "=0.31.0"
fastembed = { version = "=4.9.1", default-features = false, features = ["hf-hub-rustls-tls"] }
