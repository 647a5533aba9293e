[package]
name = "helix_term"
version = "0.2.0"
edition = "2021"
publish = false

[dependencies]
anyhow = "=1.0.104"
crossterm = "=0.20.0"
futures-util = "=0.3.34"
log = "=0.4.35"
regex = "=1.13.1"
ropey = "=1.6.1"
serde = { version = "=1.0.229", features = ["derive"] }
serde_json = "=1.0.154"
tokio = { version = "=1.54.1", features = ["rt"] }
url = { version = "2", features = ["serde"] }
