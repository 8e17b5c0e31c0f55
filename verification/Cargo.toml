[package]
name = "sirno"
version = "0.1.0"
edition = "2021"
publish = false

[dependencies]
serde = { version = "=1.0.229", features = ["derive"] }
serde_json = "=1.0.154"
serde_yaml = "=0.9.34"
toml = { version = "=1.1.8", features = ["preserve_order"] }
regex = "=1.13.1"
sha2 = "=0.10.9"
comfy-table = "=7.2.2"
unicode-width = "=0.2.3"
clap = { version = "=4.6.7", features = ["derive"] }
