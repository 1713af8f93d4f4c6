[package]
name = "hash_bias"
version = "0.1.0"
edition = "2021"
publish = false

[dependencies]
rand = "0.8"
rayon = "1"
clap = "2"
png_encode_mini = "*"
