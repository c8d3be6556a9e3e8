[package]
name = "grid"
version = "0.1.0"
edition = "2021"
publish = false

[dependencies]
zip = { version = "=0.6.6", default-features = false }
nalgebra = "=0.31.4"
pulldown-cmark = { version = "0.8", default-features = false }
