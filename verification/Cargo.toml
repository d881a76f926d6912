[package]
name = "gambit"
version = "0.1.0"
edition = "2021"
publish = false

[dependencies]
linked-list = "*"
systemstat = "*"
rand_xoshiro = "*"
