[package]
name = "image_comp"
version = "0.1.0"
edition = "2021"
publish = false

[dependencies]
bytes = "1"
image = { version = "0.25", default-features = false, features = ["png", "jpeg"] }
miniz_oxide = "0.8"
