[package]
name = "wayfire_ipc"
version = "0.1.0"
edition = "2021"
publish = false

[dependencies]
serde = { version = "=1.0.229", features = ["derive"] }
serde_json = { version = "=1.0.151", features = ["preserve_order"] }
tokio = { version = "=1.53.2", features = ["net", "io-util", "rt", "rt-multi-thread", "macros"] }
