[package]
name = "vortx"
version = "0.1.0"
edition = "2021"
publish = false

[dependencies]
bytemuck = "*"
glamx = "*"
khal = "*"
khal-std = "*"
