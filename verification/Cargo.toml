[package]
name = "crabwalk"
version = "2.0.1"
edition = "2021"
publish = false

[dependencies]
clap = { version = "=4.6.7", features = ["derive"] }
env_logger = "=0.11.11"
log = "=0.4.35"
pollster = "=1.0.1"
serde_json = "=1.0.154"
skia-rs = { version = "=0.4.0", features = ["text", "codec-png"] }
smithay-client-toolkit = { version = "=0.21.1", default-features = false }
wayland-client = "=0.31.15"
wgpu = "=30.0.1"
winit = "=0.30.13"
