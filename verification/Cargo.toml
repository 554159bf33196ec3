[package]
name = "voxel_world"
version = "0.1.0"
edition = "2021"
publish = false

[dependencies]
dashmap = "*"
noise = "*"
rayon = "*"
glam = "*"
bytemuck = { version = "*", features = ["derive"] }
pollster = "*"
env_logger = "*"
wgpu = "*"
winit = "*"
