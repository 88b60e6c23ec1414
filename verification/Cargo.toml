[package]
name = "fractal_core"
version = "0.1.0"
edition = "2021"
publish = false

[dependencies]
num-bigint = "=0.4.8"
rand = "=0.8.8"
config = "=0.15.27"
rustc_apfloat = "*"
