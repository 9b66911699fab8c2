[package]
name = "line_endings"
version = "0.1.0"
edition = "2021"
publish = false

[dependencies]
anyhow = "*"
glob = "*"
pico-args = "*"
rayon = "*"
