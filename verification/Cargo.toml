[package]
name = "sluggrs"
version = "0.1.0"
edition = "2021"
publish = false

[dependencies]
bytemuck = { version = "1", features = ["derive"] }
cosmic-text = "*"
env_logger = { version = "0.11", default-features = false }
log = "0.4"
pollster = "0.4"
rustc-hash = "2"
skrifa = "0.40"
wgpu = { version = "29", default-features = false, features = ["std", "wgsl", "vulkan"] }
winit = { version = "0.30", default-features = false, features = ["x11", "rwh_06"] }
