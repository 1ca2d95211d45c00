[package]
name = "verlet"
version = "0.1.0"
edition = "2021"
publish = false

[dependencies]
stopwatch = "*"
rand = "0.8"
colors-transform = "*"
