[package]
name = "frontend"
version = "0.1.0"
edition = "2021"
publish = false

[dependencies]
hyper = "0.13"
hyper-tls = "0.4"
futures = "0.3"
tokio = { version = "0.2", features = ["full"] }
serde = { version = "1", features = ["derive"] }
serde_json = "1"
url = "1.7"
log = "0.4"
mime = "0.3"
async-trait = "0.1"
