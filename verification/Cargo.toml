[package]
name = "numkit"
version = "0.1.0"
edition = "2021"
publish = false

[dependencies]
itertools = "0.13"
ndarray = "0.15"
ndarray-rand = "0.14"
rand = "0.8"
