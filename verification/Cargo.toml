[package]
name = "mandelbrot_core"
version = "0.1.0"
edition = "2021"
publish = false

[dependencies]
colorgrad = "*"
serde = { version = "*", features = ["derive"] }
