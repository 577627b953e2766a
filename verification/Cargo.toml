[package]
name = "ph_curves"
version = "0.1.0"
edition = "2021"
publish = false

[dependencies]
fixed = "1"
serde = { version = "1", features = ["derive"] }
toml = "0.8"
clap = { version = "4", features = ["derive"] }
