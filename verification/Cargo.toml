[package]
name = "tetris"
version = "0.1.0"
edition = "2021"
publish = false

[dependencies]
rand = "=0.9.5"
ggez = { version = "=0.9.3", default-features = false }
