[package]
name = "quantum_animal_shogi"
version = "0.1.0"
edition = "2021"
publish = false

[dependencies]
itertools = "*"
unicode-width = "*"
