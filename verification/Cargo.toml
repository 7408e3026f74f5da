[package]
name = "rk_boot"
version = "0.1.0"
edition = "2021"
publish = false

[dependencies]
lazy_static = "1.4.0"
spin = "0.5.2"
