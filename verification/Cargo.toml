[package]
name = "mathexpr"
version = "0.1.0"
edition = "2021"
publish = false

[dependencies]
num-complex = "=0.4.6"
num = "=0.4.3"
parsel = "0.17"
kiss3d = "0.35"
