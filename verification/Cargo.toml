[package]
name = "space_invaders"
version = "0.1.0"
edition = "2021"
publish = false

[dependencies]
crossterm = "*"
rust-ini = "*"
lazy_static = "1"
rand = "0.8"
