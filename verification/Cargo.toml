[package]
name = "msg_status_effect"
version = "0.1.0"
edition = "2021"
publish = false

[dependencies]
bevy = { version = "*", default-features = false }
serde = { version = "*", features = ["derive"] }
