[package]
name = "raytracer"
version = "0.1.0"
edition = "2021"
publish = false

[dependencies]
auto_ops = "0.3"
rand = "0.8"
rayon = "1"
sdl2 = "0.35"
