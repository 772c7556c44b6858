[package]
name = "weather_forecaster"
version = "0.1.0"
edition = "2021"
publish = false

[dependencies]
rand = "=0.9.5"
clap = { version = "4", features = ["derive"] }
serde = { version = "1", features = ["derive"] }
serde_yaml = "0.9"
cli-clipboard = "0.4"
