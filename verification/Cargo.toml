[package]
name = "promptrs_client"
version = "0.1.0"
edition = "2021"
publish = false

[dependencies]
a2httpc = "*"
serde = { version = "*", features = ["derive"] }
serde_json = "*"
