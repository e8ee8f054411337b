[package]
name = "bevy_vrma"
version = "0.1.0"
edition = "2021"
publish = false

[dependencies]
bevy = { version = "=0.16.1", default-features = false, features = ["bevy_animation", "bevy_asset", "bevy_scene", "bevy_log"] }
serde = { version = "=1.0.229", features = ["derive"] }
serde_json = "=1.0.151"
anyhow = "=1.0.104"
gltf = { version = "=1.4.1", default-features = false, features = ["extensions", "names"] }
