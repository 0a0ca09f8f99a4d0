[package]
name = "aura_chat"
version = "0.1.0"
edition = "2021"
publish = false

[dependencies]
rand = "0.8"
tokio = { version = "1", features = ["full"] }
serde = { version = "1", features = ["derive"] }
serde_json = "1"
chrono = "0.4"
crossterm = "0.25"
tui = "0.19"
reqwest = { version = "0.11", default-features = false, features = ["json"] }
