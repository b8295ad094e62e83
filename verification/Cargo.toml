[package]
name = "liquid_chunk"
version = "0.1.0"
edition = "2021"
publish = false

[dependencies]
bevy_platform = "*"
