[package]
name = "pacascope"
version = "0.1.0"
edition = "2021"
publish = false

[dependencies]
anyhow = "=1.0.104"
apca = "=0.30.0"
chrono = "=0.4.45"
crossterm = "=0.29.0"
dotenv = "=0.15.0"
ratatui = "=0.30.2"
serde = { version = "=1.0.229", features = ["derive"] }
tokio = { version = "=1.54.1", features = ["full"] }
toml = "=1.1.8"
tracing-subscriber = "=0.3.23"
