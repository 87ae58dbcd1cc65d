[package]
name = "aura"
version = "0.1.0"
edition = "2021"
publish = false

[dependencies]
termwiz = "=0.23.3"
anyhow = "=1.0.104"
config = { version = "=0.15.27", default-features = false, features = ["toml"] }
serde = { version = "=1.0.229", features = ["derive"] }
serde_json = "=1.0.154"
tokio = { version = "=1.54.1", features = ["full"] }
portable-pty = "=0.9.0"
crossterm = "=0.29.0"
libc = "=0.2.191"
atty = "=0.2.14"
tracing = "=0.1.44"
tracing-subscriber = { version = "=0.3.23", features = ["env-filter"] }
once_cell = "=1.21.4"
futures = "=0.3.34"
genai = "=0.7.2"
rig-core = "=0.32.0"
reqwest = { version = "=0.13.5", default-features = false, features = ["json"] }
