[package]
name = "rustools"
version = "0.1.0"
edition = "2021"
publish = false

[dependencies]
natord = "*"
flate2 = "*"
memchr = "*"
