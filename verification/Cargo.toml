[package]
name = "exa"
version = "0.1.0"
edition = "2021"
publish = false

[dependencies]
unicode-segmentation = "*"
anyhow = "*"
crossterm = "*"
colors-transform = "*"
dirs = "*"
toml = "*"
