[package]
name = "block_game"
version = "0.1.0"
edition = "2021"
publish = false

[dependencies]
ggez = "0.5.1"
rand = "=0.4.6"
