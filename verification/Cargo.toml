[package]
name = "offscreen_canvas"
version = "0.1.0"
edition = "2021"
publish = false

[dependencies]
fontdue = "0.8"
image = { version = "0.24", default-features = false, features = ["png"] }
imageproc = { version = "0.23", default-features = false }
