[package]
name = "sanos"
version = "0.1.0"
edition = "2021"
publish = false

[dependencies]
anyhow = "*"
clap = { version = "*", features = ["derive"] }
log = "*"
resopt = "*"
serde = { version = "*", features = ["derive"] }
serde_json = "*"
statrs = "*"
tracing = "*"
tracing-subscriber = { version = "*", features = ["env-filter"] }
