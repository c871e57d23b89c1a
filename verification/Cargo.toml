[package]
name = "iridium"
version = "0.1.0"
edition = "2021"
publish = false

[dependencies]
glam = { version = "0.20", features = ["bytemuck"] }
bytemuck = { version = "=1.25.2", features = ["derive"] }
wgpu = "=0.12.0"
winit = "=0.26.1"
imgui = "=0.8.2"
imgui-wgpu = "=0.19.0"
imgui-winit-support = { version = "=0.8.2", default-features = false, features = ["winit-26"] }
pollster = "=0.2.5"
env_logger = "=0.9.3"
