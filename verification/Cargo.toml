[package]
name = "anablog"
version = "0.1.0"
edition = "2021"
publish = false

[dependencies]
chrono = { version = "=0.4.45", features = ["serde"] }
comrak = "=0.44.0"
serde = { version = "=1.0.229", features = ["derive"] }
serde_yaml = "=0.9.34"
