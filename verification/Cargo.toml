[package]
name = "typed_slab"
version = "0.1.0"
edition = "2021"
publish = false

[dev-dependencies]
slab = "=0.4.12"
