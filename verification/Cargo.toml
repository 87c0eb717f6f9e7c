[package]
name = "dolbaeb_simulator"
version = "0.1.0"
edition = "2021"
publish = false

[dependencies]
macroquad = { version = "=0.4.16", features = ["audio"] }
serde_json = "=1.0.154"
