[package]
name = "filter_chain"
version = "0.1.0"
edition = "2021"
publish = false

[dependencies]
anyhow = "1"
gl = "0.14"
glow = "0.16"
image = "0.25"
rayon = "1"
