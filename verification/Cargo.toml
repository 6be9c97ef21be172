[package]
name = "cairo_native"
version = "0.1.0"
edition = "2021"
publish = false

[dependencies]
starknet-types-core = { version = "*", default-features = false }
cairo-lang-sierra = "*"
bumpalo = "3"
libc = "0.2"
tracing = "0.1"
melior = "*"
melior-next = "*"
color-eyre = "0.6"
itertools = "*"
