[package]
name = "blackfriday"
version = "0.1.0"
edition = "2021"
publish = false

[dependencies]
rand = "=0.8.8"
bevy = { version = "=0.9.1", default-features = false, features = ["animation", "bevy_asset", "bevy_scene", "bevy_winit", "render", "png", "x11"] }
bevy_asset_loader = "0.14"
bevy_embedded_assets = "0.6"
bevy_mod_outline = "0.3"
bevy_prototype_debug_lines = { version = "0.9", features = ["3d"] }
bevy_rapier3d = "0.19"
bevy_tweening = "0.6"
image = { version = "0.24", default-features = false, features = ["png"] }
winit = { version = "0.27", default-features = false, features = ["x11"] }
