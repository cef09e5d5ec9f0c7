[package]
name = "fluids"
version = "0.1.0"
edition = "2021"
publish = false

[dependencies]
bevy = { version = "0.19", default-features = false, features = ["bevy_core_pipeline", "bevy_log", "bevy_pbr", "bevy_render", "bevy_window", "bevy_winit", "png", "x11"] }
bytemuck = { version = "1", features = ["derive"] }
rayon = "1"
serde = { version = "1", features = ["derive"] }
toml = "0.9"
