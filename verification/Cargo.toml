[package]
name = "graphite"
version = "0.1.0"
edition = "2021"
publish = false

[dependencies]
serde = { version = "1", features = ["derive"] }
serde_json = "1"
serde_yaml = "0.9"
pulldown-cmark = { version = "0.12", default-features = false, features = ["html"] }
clap = { version = "4", features = ["derive"] }
