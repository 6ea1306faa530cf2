[package]
name = "frame_pacer"
version = "0.1.0"
edition = "2021"
publish = false

[dependencies]
erupt = "*"
