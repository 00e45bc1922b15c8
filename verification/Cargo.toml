[package]
name = "chip8"
version = "0.1.0"
edition = "2021"
publish = false

[dependencies]
arrayvec = "*"
rand = "=0.8.5"
clap = { version = "*", features = ["derive"] }
