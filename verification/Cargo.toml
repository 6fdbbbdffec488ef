[package]
name = "homeworlds"
version = "0.1.0"
edition = "2021"
publish = false

[dependencies]
arrayvec = "0.7"
once_cell = "1"
