[package]
name = "smoke"
version = "0.1.0"
edition = "2021"
publish = false

[dependencies]
queues = "1"
bytemuck = { version = "1", features = ["derive"] }
ogl33 = "0.2"
beryllium = "0.13"
noise = "0.9"
image = { version = "0.25", default-features = false, features = ["png"] }
winit = "0.30"
wgpu = "*"
