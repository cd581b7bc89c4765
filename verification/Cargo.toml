[package]
name = "rj"
version = "0.1.0"
edition = "2021"
publish = false

[dependencies]
libloading = "0.8"
rustyline = { version = "15", features = ["derive"] }
env_logger = { version = "0.11", default-features = false }
wgpu = "0.19"
pollster = "0.3"
bytemuck = "1"
