[package]
name = "radb"
version = "0.1.0"
edition = "2021"
publish = false

[dependencies]
rsa = { version = "=0.9.10", features = ["hazmat"] }
pkcs8 = { version = "=0.10.2", features = ["pem"] }
rand = "=0.8.8"
bytes = "=1.12.1"
tokio = { version = "=1.54.1", features = ["full"] }
async-trait = "=0.1.92"
thiserror = "=1.0.69"
tracing = "=0.1.44"
