[package]
name = "rafce"
version = "0.1.0"
edition = "2021"
publish = false

[dependencies]
itoa = "1"
libc = "0.2"
memmap2 = "0.9"
