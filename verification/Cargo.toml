[package]
name = "minecraft2"
version = "0.1.0"
edition = "2021"
publish = false

[dependencies]
gilrs = "*"
glam = "*"
log = "*"
rayon = "*"
winit = "0.30"
