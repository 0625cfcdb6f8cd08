[package]
name = "moq_transport"
version = "0.1.0"
edition = "2021"
publish = false

[dependencies]
anyhow = "=1.0.104"
bytes = "=1.12.1"
clap = { version = "=4.6.7", features = ["derive"] }
futures = "=0.3.34"
log = "=0.4.35"
paste = "=1.0.15"
quinn = { version = "=0.11.12", features = ["qlog"] }
rand = "=0.8.8"
rustls = "=0.23.46"
serde = { version = "=1.0.229", features = ["derive"] }
serde_json = "=1.0.154"
serde_with = "=3.24.0"
thiserror = "=2.0.21"
tokio = { version = "=1.54.1", features = ["full"] }
url = "=2.5.8"
web-transport = "=0.13.8"
web-transport-quinn = "=0.13.5"
