[package]
name = "harken"
version = "0.1.0"
edition = "2021"
publish = false

[dependencies]
bevy = { version = "0.14", default-features = false }
log = "0.4"
serde = { version = "1", features = ["derive"] }
serde_json = "1"
