[package]
name = "linearf"
version = "0.1.0"
edition = "2021"
publish = false

[dependencies]
serde = { version = "=1.0.229", features = ["derive"] }
serde_json = "=1.0.154"
toml = "=0.5.11"
quote = "=1.0.47"
proc-macro2 = "=1.0.107"
tokio = { version = "=1.54.1", features = ["rt-multi-thread", "sync", "macros", "io-std", "io-util"] }
futures = "=0.3.34"
thiserror = "=1.0.69"
anyhow = "=1.0.104"
base64 = "=0.13.1"
libc = "=0.2.191"
log = "=0.4.35"
pin-project-lite = "=0.2.17"
