[package]
name = "wesl_build"
version = "0.1.0"
edition = "2021"
publish = false

[dependencies]
wesl = "=0.1.2"
naga = { version = "=24.0.0", features = ["wgsl-in", "wgsl-out"] }
wgsl_to_wgpu = "=0.19.0"
wgsl-minifier = "=0.7.0"
log = "=0.4.34"
env_logger = "=0.11.11"
