[package]
name = "square_engine"
version = "0.1.0"
edition = "2021"
publish = false

[dependencies]
rand = "=0.8.8"
rustc_apfloat = "=0.1.3"
bytemuck = "=1.25.2"
wgpu = "=30.0.1"
winit = "=0.30.13"
game-loop = { version = "=1.3.0", features = ["winit"] }
pollster = "=1.0.1"
