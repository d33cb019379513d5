[package]
name = "fibonacci_vsa"
version = "0.2.0"
edition = "2021"
publish = false

[dependencies]
ndarray = "0.16"

[dev-dependencies]
ndarray = "0.16"
rand = "0.8"
