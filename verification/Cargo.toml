[package]
name = "tower_pcs"
version = "0.1.0"
edition = "2021"
publish = false

[dependencies]
transpose = "*"
groestl = "*"

[dev-dependencies]
rand = "0.8"
