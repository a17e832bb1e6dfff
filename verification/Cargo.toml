[package]
name = "rust_devtools_mcp"
version = "0.1.0"
edition = "2021"
publish = false

[dependencies]
anyhow = "=1.0.104"
async-lsp = "=0.2.4"
async-process = "=2.5.0"
clap = { version = "=4.6.7", features = ["derive"] }
dashmap = "=6.2.1"
flume = "=0.12.0"
lsp-types = "=0.95.1"
notify-debouncer-mini = "=0.7.0"
serde = { version = "=1.0.229", features = ["derive"] }
serde_json = "=1.0.151"
shellexpand = "=3.1.2"
tokio = { version = "=1.53.2", features = ["full"] }
toml = "=1.1.6"
tracing = "=0.1.44"
tracing-subscriber = { version = "=0.3.23", features = ["env-filter"] }
url = "=2.5.8"
