[package]
name = "msc_jit"
version = "0.1.0"
edition = "2021"
publish = false

[dependencies]
x86asm = "*"
msc = "*"
libc = "0.2"
