[package]
name = "rust_interpreter"
version = "0.1.0"
edition = "2021"
publish = false

[dependencies]
heck = "=0.5.0"
rustc_apfloat = "*"
