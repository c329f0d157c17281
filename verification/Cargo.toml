[package]
name = "engine"
version = "0.2.0"
edition = "2021"
publish = false

[dependencies]
anyhow = "1"
bytemuck = { version = "1", features = ["derive"] }
glam = "0.27"
pollster = "0.3"
thiserror = "1"
wgpu = "0.20"
winit = "0.30"
