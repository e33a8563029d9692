[package]
name = "dbswitch"
version = "0.1.0"
edition = "2021"
publish = false

[dependencies]
rayon = "1"
async-trait = "0.1"
lazy_static = "1"
