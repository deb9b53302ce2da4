[package]
name = "godot-bevy"
version = "0.1.0"
edition = "2021"
publish = false

[dependencies]
bevy = { version = "=0.16.1", default-features = false, features = ["std", "bevy_asset", "bevy_log"] }
godot = "0.4"
tracing = "=0.1.44"
