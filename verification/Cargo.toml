[package]
name = "sinirust"
version = "0.1.0"
edition = "2021"
publish = false

[dependencies]
rand = "=0.9.5"
bevy = { version = "=0.17.3", default-features = false, features = ["std", "bevy_window", "bevy_winit", "x11", "bevy_asset", "bevy_color", "bevy_render", "bevy_core_pipeline", "bevy_sprite", "bevy_sprite_render"] }
