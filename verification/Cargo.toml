[package]
name = "lore"
version = "0.1.0"
edition = "2021"
publish = false

[dependencies]
pulldown-cmark = { version = "=0.13.6", default-features = false }
htmd = "=0.5.6"
scraper = "=0.29.0"
ego-tree = "=0.11.1"
tiktoken-rs = "=0.12.1"
serde_json = "=1.0.154"
toml = "=1.1.8"
serde = { version = "=1.0.229", features = ["derive"] }
serde_yaml = "=0.9.34"
thiserror = "=2.0.21"
tracing = "=0.1.44"
tracing-subscriber = { version = "=0.3.23", features = ["env-filter"] }
tokio = { version = "=1.54.1", features = ["full"] }
rusqlite = { version = "=0.40.2", features = ["bundled"] }
tokio-rusqlite = "=0.8.0"
sqlite-vec = "=0.1.9"
fastembed = { version = "=7.5.0", default-features = false, features = ["onnx", "hf-hub"] }
git2 = { version = "=0.21.0", default-features = false }
reqwest = { version = "=0.13.5", default-features = false }
walkdir = "=2.5.0"
rmcp = { version = "=3.8.0", features = ["transport-io"] }
clap = { version = "=4.6.7", features = ["derive", "env"] }
console = "=0.16.6"
dialoguer = "=0.12.0"
indicatif = "=0.18.6"
dirs-next = "=2.0.0"
tempfile = "=3.27.0"
