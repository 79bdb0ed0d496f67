[package]
name = "cykusz_kernel"
version = "0.1.0"
edition = "2021"
publish = false

[dependencies]
bit_field = "=0.10.3"
hashbrown = "=0.17.1"
spin = "=0.9.9"
