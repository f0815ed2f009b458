[package]
name = "ecosim"
version = "0.1.0"
edition = "2021"
publish = false

[dependencies]
rand = "=0.8.8"
serde = { version = "=1.0.229", features = ["derive"] }
serde_json = "=1.0.154"
nalgebra = "=0.33.3"
dotenvy = "=0.15.7"
bevy = { version = "=0.17.3", default-features = false, features = ["std", "bevy_log", "bevy_color", "bevy_ui", "bevy_ui_render", "bevy_text", "bevy_gizmos", "bevy_sprite", "bevy_sprite_render", "bevy_core_pipeline", "bevy_render", "bevy_window", "default_font", "multi_threaded", "bevy_mesh", "bevy_camera", "bevy_asset"] }
