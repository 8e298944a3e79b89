[package]
name = "glitch_bridge"
version = "0.1.0"
edition = "2021"
publish = false

[dependencies]
chrono = "*"
sp-core = "*"
web3 = { version = "*", default-features = false, features = ["signing", "ws-tokio"] }
tokio = { version = "*", features = ["full"] }
clap = { version = "*", features = ["derive"] }
dialoguer = "*"
log = "*"
log4rs = "*"
serde = { version = "*", features = ["derive"] }
serde_json = "*"
futures = "*"
