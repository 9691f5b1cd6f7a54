[package]
name = "om3_parser_rs"
version = "0.1.0"
edition = "2021"
publish = false

[dependencies]
nom = "8"
