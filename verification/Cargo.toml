[package]
name = "nodelite"
version = "0.1.0"
edition = "2021"
publish = false

[dependencies]
url = "=2.5.8"
base32 = "=0.5.1"
getrandom = "=0.3.4"
serde = { version = "=1.0.229", features = ["derive"] }
serde_json = "=1.0.154"
libc = "=0.2.191"
chrono = "=0.4.45"
anyhow = "=1.0.104"
tokio = { version = "1", features = ["rt", "fs"] }
