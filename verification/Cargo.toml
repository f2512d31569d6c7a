[package]
name = "lean"
version = "0.1.0"
edition = "2021"

[dependencies]
bit_field = "0.10"
nom = "7"
