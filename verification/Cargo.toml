[package]
name = "surmount_edge"
version = "0.1.0"
edition = "2021"
publish = false

[dependencies]
serde_json = "=1.0.154"
serde = { version = "=1.0.229", features = ["derive"] }
anyhow = "=1.0.104"
libc = "=0.2.191"
reqwest = { version = "=0.12.28", default-features = false, features = ["blocking", "rustls-tls"] }
