[package]
name = "enginekit"
version = "0.1.0"
edition = "2021"
publish = false

[dependencies]
chrono = { version = "0.4", features = ["serde"] }
serde = { version = "1", features = ["derive"] }
serde_json = "1"
clap = { version = "4", features = ["derive"] }
log = "0.4"
env_logger = "0.11"
tracing = "0.1"
tracing-subscriber = "0.3"
parking_lot = "0.12"
rodio = { version = "0.17", default-features = false, features = ["wav"] }
image = { version = "0.24", default-features = false, features = ["png", "jpeg"] }
ndarray = "0.15"
rand = "0.8"
bytemuck = "1"
thiserror = "1"
anyhow = "1"
