[package]
name = "chelone"
version = "0.2.0"
edition = "2021"
publish = false

[dependencies]
itertools = "0.12"
petgraph = "0.6"
url = "2"
