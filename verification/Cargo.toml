[package]
name = "kaitai"
version = "0.1.0"
edition = "2021"
publish = false

[dependencies]
byteorder = "*"
cp437 = "*"
encoding = "*"
flate2 = "*"
unicode-segmentation = "*"
