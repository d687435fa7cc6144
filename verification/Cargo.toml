[package]
name = "debug_overlay"
version = "0.1.0"
edition = "2021"
publish = false

[dependencies]
bevy = { version = "*", default-features = false, features = ["bevy_ui", "bevy_text", "bevy_gizmos"] }
