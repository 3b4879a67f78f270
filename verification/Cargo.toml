[package]
name = "softraster"
version = "0.1.0"
edition = "2021"
publish = false

[dependencies]
glam = "=0.20.5"
macroquad = { version = "=0.3.26", default-features = false }
