[package]
name = "softrast"
version = "0.1.0"
edition = "2021"
publish = false

[dependencies]
gltf = "1"
image = { version = "0.25", default-features = false, features = ["png", "jpeg"] }
nalgebra = "0.33"
rand = "0.9"
rand_xorshift = "0.4"
rayon = "1"
softbuffer = "0.4"
winit = "0.30"
