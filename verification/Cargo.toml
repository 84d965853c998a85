[package]
name = "qr_symbol"
version = "0.1.0"
edition = "2021"
publish = false

[dependencies]
maths-rs = "*"
minifb = "*"
