[package]
name = "apogeetrak"
version = "0.1.0"
edition = "2021"
publish = false

[dependencies]
bevy = { version = "0.16", default-features = false, features = ["std", "async_executor", "bevy_asset", "bevy_color", "bevy_core_pipeline", "bevy_log", "bevy_pbr", "bevy_render", "bevy_text", "bevy_ui", "bevy_window"] }
chrono = { version = "=0.4.45", default-features = false, features = ["std"] }
sgp4 = "=2.4.0"
tokio = { version = "1", default-features = false, features = ["rt", "rt-multi-thread"] }
