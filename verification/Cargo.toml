[package]
name = "rustytune"
version = "0.1.0"
edition = "2021"
publish = false

[dependencies]
crc32fast = "=1.5.4"
sha2 = "=0.10.9"
hex = "=0.4.3"
rand = "=0.9.5"
libc = "=0.2.191"
quick-xml = "0.37"
