[package]
name = "genos"
version = "0.2.0"
edition = "2021"
publish = false

[dependencies]
libm = "0.2"
native-tls = "0.2"
uefi = "0.37"
