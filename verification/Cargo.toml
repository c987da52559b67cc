[package]
name = "wgpu-native"
version = "0.1.0"
edition = "2021"
publish = false

[dependencies]
bindgen = "=0.72.1"
log = "=0.4.35"
parking_lot = "=0.12.5"
wgpu-core = { version = "=30.0.1", default-features = false, features = ["noop", "std", "wgsl"] }
wgpu-types = { version = "=30.0.1", default-features = false, features = ["std"] }
