[package]
name = "macro_attr_2018"
version = "0.1.0"
edition = "2021"
publish = false

[dependencies]
exit-no-std = "*"
