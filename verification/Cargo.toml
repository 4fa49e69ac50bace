[package]
name = "bright"
version = "0.1.0"
edition = "2021"
publish = false

[dependencies]
anyhow = "*"
brightness = "*"
chrono = { version = "*", features = ["serde"] }
clap = { version = "*", features = ["derive"] }
futures = "*"
serde = { version = "*", features = ["derive"] }
shellexpand = "*"
tokio = { version = "*", features = ["rt", "macros", "time"] }
toml = "*"
