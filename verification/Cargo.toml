[package]
name = "kernel_rt"
version = "0.1.0"
edition = "2021"

[dependencies]
bit_field = "*"
hashbrown = "*"
