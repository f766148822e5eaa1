[package]
name = "spectrum_visualizer"
version = "0.1.0"
edition = "2021"
publish = false

[dependencies]
anyhow = "1"
colorgrad = "0.6"
cpal = "0.15"
minifb = "*"
rodio = "0.17"
rustfft = "6"
