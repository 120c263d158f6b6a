[package]
name = "qr_inverse"
version = "0.1.0"
edition = "2021"
publish = false

[dependencies]
dyn-stack = "=0.9.1"
faer-core = "=0.6.0"
reborrow = "=0.5.5"
