[package]
name = "garden_bash"
version = "0.1.0"
edition = "2021"
publish = false

[dependencies]
rand = "0.8"
colored = "2"
clearscreen = "1"
