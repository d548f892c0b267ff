[package]
name = "pixi_assistant"
version = "0.1.0"
edition = "2021"
publish = false

[dependencies]
fs2 = "0.4"
serde_json = "1"
clap = { version = "4", features = ["derive"] }
