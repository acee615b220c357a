[package]
name = "tiamat_core"
version = "0.1.0"
edition = "2021"
publish = false

[dependencies]
aes = "0.7"
block-modes = "0.8"
block-padding = "0.2"
hex = "0.4"
rand = "0.8"
urlencoding = "2"
