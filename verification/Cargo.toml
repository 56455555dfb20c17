[package]
name = "video_fixer"
version = "0.1.0"
edition = "2021"
publish = false

[dependencies]
image = { version = "*", default-features = false, features = ["png"] }
zstd = "*"
rayon = "*"
tempfile = "*"
once_cell = "*"
