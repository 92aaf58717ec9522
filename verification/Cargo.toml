[package]
name = "gemm"
version = "0.1.0"
edition = "2021"
publish = false

[dependencies]
dyn-stack = "0.8"
aligned-vec = "0.5"
rayon = "1"
num-traits = "0.2"
lazy_static = "1"
