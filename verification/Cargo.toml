[package]
name = "graphex"
version = "0.1.0"
edition = "2021"
publish = false

[dependencies]
cgmath = "=0.18.0"
glium = { version = "=0.23.0", default-features = false }
glium_sdl2 = "=0.7.0"
glium_text = "=0.14.0"
sdl2 = "=0.9.1"
