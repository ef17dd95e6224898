[package]
name = "hole"
version = "0.1.0"
edition = "2021"
publish = false

[dependencies]
colors-transform = "0.2"
macroquad = { version = "0.4", default-features = false }
