[package]
name = "statlearn"
version = "0.1.0"
edition = "2021"
publish = false

[dependencies]
rand = "*"
csv = "*"
nalgebra = "*"
num = "*"
