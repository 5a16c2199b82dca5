[package]
name = "vtome"
version = "0.1.0"
edition = "2021"
publish = false

[dependencies]
image = { version = "0.25", default-features = false, features = ["png", "jpeg", "gif", "webp", "bmp", "tiff"] }
matroska-demuxer = "*"
mp4 = "0.14"
thiserror = "2"
wgpu = "*"
winit = "0.30"
pollster = "0.4"
bytemuck = { version = "1", features = ["derive"] }
