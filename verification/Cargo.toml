[package]
name = "agent-immune"
version = "0.5.2"
edition = "2021"
publish = false

[dependencies]
toml = "0.8"
serde_json = "1"
uuid = { version = "1", features = ["v7"] }
serde = { version = "1", features = ["derive"] }
anyhow = "1"
clap = { version = "4", features = ["derive"] }
tokio = { version = "1", features = ["full"] }
tracing = "0.1"
tracing-subscriber = { version = "0.3", features = ["env-filter"] }
reqwest = { version = "0.12", default-features = false, features = ["json", "rustls-tls"] }
axum = "0.7"
rmcp = { version = "0.1", features = ["server", "transport-io"] }
schemars = "0.8"
async-nats = "0.38"
futures = "0.3"
tempfile = "3"
seccompiler = "0.4"
libc = "0.2"
