[package]
name = "mandel_core"
version = "0.1.0"
edition = "2021"
publish = false

[dependencies]
uuid = { version = "=1.29.0", features = ["v4"] }
serde = { version = "=1.0.229", features = ["derive"] }
serde_json = "=1.0.154"
toml = "=0.8.23"
chrono = "=0.4.45"
log = "=0.4.35"
ureq = { version = "=2.12.1", default-features = false }
egui = "0.31"
egui-wgpu = "0.31"
egui-winit = "0.31"
wgpu = "24"
winit = "0.30"
pollster = "0.4"
image = { version = "0.25", default-features = false, features = ["png"] }
