[package]
name = "chessai"
version = "0.1.0"
edition = "2021"
publish = false

[dependencies]
byteorder = "=1.5.0"
rand = "=0.8.8"
rayon = "=1.12.0"
