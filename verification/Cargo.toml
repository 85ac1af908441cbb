[package]
name = "tensor_ops"
version = "0.1.0"
edition = "2021"
publish = false

[dependencies]
burn-common = "0.13"
num-traits = "0.2"
