[package]
name = "retort"
version = "0.1.0"
edition = "2021"
publish = false

[dependencies]
anyhow = "=1.0.104"
clap = { version = "=4.6.7", features = ["derive"] }
futures = "=0.3.34"
llm = { version = "=1.3.8", default-features = false, features = ["google"] }
minijinja = { version = "=2.24.0", features = ["loader"] }
regex = "=1.13.1"
rusqlite = { version = "=0.32.1", features = ["bundled"] }
serde = { version = "=1.0.229", features = ["derive"] }
serde_json = "=1.0.154"
serde_yaml = "=0.9.34"
sha2 = "=0.10.9"
shellexpand = "=3.1.2"
tokio = { version = "=1.54.1", features = ["rt", "macros"] }
