[package]
name = "voxld"
version = "0.1.0"
edition = "2021"
publish = false

[dependencies]
fnv = "*"
specs = "*"
rayon = "*"
noise = "*"
rand = "*"
cgmath = "*"
genmesh = "*"
