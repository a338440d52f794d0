[package]
name = "dot_image"
version = "0.1.0"
edition = "2021"
publish = false

[dependencies]
clap = "2"
gif = "0.13"
image = { version = "0.24", default-features = false, features = ["bmp", "gif", "ico", "jpeg", "png", "pnm", "tga", "tiff", "webp"] }
