[package]
name = "calculator"
version = "0.1.0"
edition = "2021"
publish = false

[dependencies]
astro-float = "*"
rand = "=0.10.3"
lazy_static = "=1.5.1"
thiserror = "=2.0.21"
