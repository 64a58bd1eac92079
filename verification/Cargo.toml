[package]
name = "remote-bridge"
version = "0.1.0"
edition = "2021"
publish = false

[dependencies]
sha2 = "*"
hex = "*"
regex = "*"
chrono = "*"
serde = { version = "*", features = ["derive"] }
serde_json = "*"
toml = "*"
tokio = { version = "*", features = ["full"] }
anyhow = "*"
clap = { version = "*", features = ["derive"] }
dirs = "*"
ctrlc = "*"
uuid = { version = "*", features = ["v4"] }
portable-pty = "*"
tracing = "*"
tracing-subscriber = "*"
async-trait = "*"
thiserror = "*"

[dev-dependencies]
base64 = "*"
