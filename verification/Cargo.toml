[package]
name = "ws2tcp_router"
version = "0.1.12"
edition = "2021"
publish = false

[dependencies]
anyhow = "1"
base64 = "0.22"
clap = { version = "4", features = ["derive"] }
futures-util = "0.3"
httparse = "1"
local-ip-address = "*"
rcgen = "0.13"
ring = "0.17"
rustls-pemfile = "2"
serde = { version = "1", features = ["derive"] }
socket2 = "*"
time = "0.3"
tokio = { version = "1", features = ["full"] }
tokio-rustls = { version = "0.26", default-features = false, features = ["ring", "logging", "tls12"] }
tokio-tungstenite = "*"
toml = "*"
tracing = "0.1"
tracing-appender = "0.2"
tracing-subscriber = { version = "0.3", features = ["env-filter"] }
