[package]
name = "mandelbrot"
version = "0.1.0"
edition = "2021"
publish = false

[dependencies]
num = "0.4"
pollster = "0.4"
softbuffer = "0.4"
wgpu = "25"
winit = "0.30"
