[package]
name = "pm1_sdk"
version = "0.1.0"
edition = "2021"
publish = false

[dependencies]
bit_field = "=0.10.3"
lazy_static = "=1.5.1"
nalgebra = { version = "0.35", default-features = false, features = ["std"] }
