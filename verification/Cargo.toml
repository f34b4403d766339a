[package]
name = "recolor"
version = "0.1.0"
edition = "2021"
publish = false

[dependencies]
image = { version = "0.25", default-features = false }
indicatif = "0.17"
palette = "0.7"
rayon = "1"
