[package]
name = "chip8"
version = "0.1.0"
edition = "2021"
publish = false

[dependencies]
rand = "=0.8.8"
game-loop = { version = "=1.3.0", features = ["winit"] }
pixels = "=0.17.2"
