[package]
name = "rye_init"
version = "0.1.0"
edition = "2021"
publish = false

[dependencies]
bitflags = "2"
libc = "0.2"
