[package]
name = "scene_tools"
version = "0.1.0"
edition = "2021"
publish = false

[dependencies]
bevy = { version = "0.10", default-features = false, features = ["bevy_scene", "bevy_asset", "serialize"] }
ron = "0.8"
thiserror = "1"
