[package]
name = "fetris"
version = "0.1.0"
edition = "2021"
publish = false

[dependencies]
rand = "0.7"
bincode = "1"
serde = { version = "1", features = ["derive"] }
serde_json = "1"
termion = "1"
toml = "0.5"
tungstenite = "0.10"
