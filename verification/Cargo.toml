[package]
name = "pixel_displace"
version = "0.1.0"
edition = "2021"
publish = false

[dependencies]
png = "*"
