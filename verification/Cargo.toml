[package]
name = "voxel_terrain"
version = "0.1.0"
edition = "2021"
publish = false

[dependencies]
rand = "0.8"
noise = "0.8"
nalgebra = "0.31"
rayon = "1"
wgpu = "0.13"
winit = "0.26"
bytemuck = { version = "1", features = ["derive"] }
env_logger = "0.9"
futures = "0.3"
