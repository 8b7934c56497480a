[package]
name = "mcpify"
version = "0.1.0"
edition = "2021"
publish = false

[dependencies]
serde = { version = "=1.0.229", features = ["derive"] }
serde_json = "=1.0.154"
serde_yaml = "=0.9.34"
anyhow = "=1.0.104"
thiserror = "=2.0.21"
clap = { version = "=4.6.7", features = ["derive"] }
tokio = { version = "=1.54.1", features = ["full"] }
reqwest = { version = "=0.13.5", default-features = false, features = ["query"] }
sqlx = { version = "=0.9.0", default-features = false, features = ["runtime-tokio", "sqlite", "postgres"] }
rmcp = { version = "=3.8.0", features = ["server", "transport-io", "elicitation"] }
schemars = "=1.2.3"
notify = "=8.2.1"
notify-debouncer-mini = "=0.7.0"
nix = { version = "=0.31.3", features = ["signal"] }
tracing = "=0.1.44"
tracing-subscriber = "=0.3.23"
