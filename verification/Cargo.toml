[package]
name = "molang"
version = "0.1.0"
edition = "2021"
publish = false

[dependencies]
indexmap = "2"
cranelift = "0.110"
cranelift-jit = "0.110"
cranelift-module = "0.110"
rand = { version = "0.8", features = ["small_rng"] }
once_cell = "1"
thiserror = "1"
reedline = "*"
nu-ansi-term = "0.50"
