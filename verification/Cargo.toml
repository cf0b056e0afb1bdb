[package]
name = "raytracer"
version = "0.1.0"
edition = "2021"
publish = false

[dependencies]
anyhow = "=1.0.104"
softbuffer = "=0.1.1"
winit = "=0.26.1"
