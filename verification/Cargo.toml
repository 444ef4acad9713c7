[package]
name = "sprite_video_renderer"
version = "0.1.0"
edition = "2021"
publish = false

[dependencies]
zstd = "*"
rand = "*"
serde_json = "*"
