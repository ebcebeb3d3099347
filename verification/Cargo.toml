[package]
name = "simple_game"
version = "0.1.0"
edition = "2021"
publish = false

[dependencies]
fontdue = "*"
wgpu = "*"
glam = "*"
bytemuck = { version = "*", features = ["derive"] }
