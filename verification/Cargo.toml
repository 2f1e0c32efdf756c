[package]
name = "lightyear_arena"
version = "0.1.0"
edition = "2021"
publish = false

[dependencies]
bevy = { version = "0.17", default-features = false, features = ["std", "bevy_state", "bevy_asset"] }
block-mesh = "0.2"
ndshape = "0.3"
dot_vox = "5.1"
ron = "0.11"
serde = { version = "1", features = ["derive"] }
