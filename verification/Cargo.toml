[package]
name = "donkey_bas"
version = "0.1.0"
edition = "2021"
publish = false

[dependencies]
font8x8 = "0.3"
sdl2 = "*"
