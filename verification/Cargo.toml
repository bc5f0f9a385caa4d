[package]
name = "crowd2x"
version = "0.1.0"
edition = "2021"
publish = false

[dependencies]
rand = "*"
fake = "*"
crossbeam-queue = "*"
rayon = "*"
