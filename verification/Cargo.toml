[package]
name = "minceraft"
version = "0.1.0"
edition = "2021"
publish = false

[dependencies]
clap = { version = "=4.6.7", features = ["derive"] }
image = { version = "=0.25.10", default-features = false, features = ["png"] }
pollster = "=0.4.0"
wgpu = "=30.0.1"
winit = "=0.30.13"
