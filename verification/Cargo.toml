[package]
name = "hcal_ui"
version = "0.1.0"
edition = "2021"
publish = false

[dependencies]
anyhow = "=1.0.104"
atomic_float = "=1.1.0"
bytemuck = { version = "=1.25.2", features = ["derive"] }
chrono = "=0.4.45"
dirs = "=6.0.0"
flume = "=0.11.1"
fnv = "=1.0.7"
glyphon = "=0.8.0"
iced = { version = "0.13", default-features = false }
serde = { version = "=1.0.229", features = ["derive"] }
serde_json = "=1.0.154"
tokio = { version = "=1.54.1", features = ["rt", "time", "net"] }
wgpu = { version = "=24.0.5", default-features = false, features = ["wgsl"] }
winit = "=0.30.13"
