[package]
name = "ohttp-client"
version = "0.1.0"
edition = "2021"
publish = false

[dependencies]
bhttp = { version = "*", features = ["bhttp", "http"] }
clap = { version = "4", features = ["derive"] }
futures-util = "0.3"
hex = "0.4"
infer = "*"
ohttp = "*"
pyo3 = "0.20"
pyo3-asyncio = { version = "0.20", features = ["tokio-runtime"] }
rand = "0.8"
reqwest = { version = "0.11", default-features = false, features = ["rustls-tls"] }
serde = { version = "1", features = ["derive"] }
serde_json = "1"
tokio = { version = "1", features = ["full"] }
tracing = "0.1"
tracing-subscriber = { version = "0.3", features = ["env-filter"] }
warp = "0.3"
