[package]
name = "spritesheet_cutter"
version = "0.1.0"
edition = "2021"
publish = false

[dependencies]
anyhow = "=1.0.104"
env_logger = "=0.11.11"
image = { version = "=0.24.9", default-features = false, features = ["png", "jpeg", "bmp", "gif", "tiff", "webp"] }
walkdir = "=2.5.0"
