[package]
name = "reactor_files"
version = "0.1.0"
edition = "2021"
publish = false

[dependencies]
mime = "0.3"
mime_guess = "2"
image = "0.23"
parking_lot = "0.12"
rayon = "1"
tree_magic = "0.2"
