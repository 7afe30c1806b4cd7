[package]
name = "werfs"
version = "0.1.0"
edition = "2021"
publish = false

[dependencies]
kd-tree = "*"
rand = "*"
typenum = "*"
macroquad = { version = "*", default-features = false }
