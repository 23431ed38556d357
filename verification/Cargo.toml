[package]
name = "proxies"
version = "0.1.0"
edition = "2021"
publish = false

[dependencies]
url = "*"
tokio = { version = "*", features = ["net", "io-util", "rt"] }
tokio-stream = "*"
futures = "*"
log = "*"
pin-project-lite = "*"
async-trait = "*"
serde = "*"
thiserror = "*"
bytes = "*"
