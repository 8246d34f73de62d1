[package]
name = "texture_pipeline"
version = "0.1.0"
edition = "2021"
publish = false

[dependencies]
bevy_app = "=0.8.1"
bevy_asset = "=0.8.1"
bevy_ecs = "=0.8.1"
bevy_input = "=0.8.1"
bevy_reflect = "=0.8.1"
