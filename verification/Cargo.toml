[package]
name = "video_diffusion"
version = "0.1.0"
edition = "2021"
publish = false

[dependencies]
serde_json = "1"
image = { version = "0.25", default-features = false, features = ["png", "jpeg"] }
mlx-rs = { version = "0.25", default-features = false }
