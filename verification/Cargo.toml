[package]
name = "logux"
version = "0.1.0"
edition = "2021"
publish = false

[dependencies]
regex = "1"
chrono = "0.4"
serde = { version = "1", features = ["derive"] }
serde_json = "1"
serde_yaml = "0.9"
tokio = { version = "1", features = ["full"] }
crossterm = "0.28"
ratatui = "0.29"
arboard = "3"
dirs = "5"
