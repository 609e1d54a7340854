[package]
name = "dusk_cdf"
version = "0.1.0"
edition = "2021"
publish = false

[dependencies]
msgpacker = "=0.3.1"
hex = "=0.4.3"
serde = { version = "=1.0.229", features = ["derive"] }
serde_json = "=1.0.154"
dap-reactor = { version = "=0.5.0", features = ["reactor"] }
tokio = { version = "=1.54.1", features = ["full"] }
clap = { version = "=4.6.7", features = ["derive"] }
