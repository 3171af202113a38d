[package]
name = "mini_p2p"
version = "0.1.0"
edition = "2021"
publish = false

[dependencies]
sha2 = "0.10"
hex = "0.4"
rand = "0.8"
uuid = { version = "1", features = ["v4", "serde"] }
serde = { version = "1", features = ["derive"] }
serde_json = "1"
tokio = { version = "1", features = ["full"] }
igd-next = "*"
socket2 = { version = "0.5", features = ["all"] }
log = "0.4"
env_logger = "*"
chrono = "0.4"
clap = { version = "4", features = ["derive"] }
thiserror = "*"
async-trait = "0.1"
