[package]
name = "tui_fi"
version = "0.1.0"
edition = "2021"
publish = false

[dependencies]
dirs = "5"
rand = "0.8"
serde = { version = "1", features = ["derive"] }
serde_json = "1"
lofty = "0.21"
ratatui = "0.29"
crossterm = "0.28"
tokio = { version = "1", default-features = false, features = ["rt", "sync"] }
