[package]
name = "si_img"
version = "0.1.0"
edition = "2021"
publish = false

[dependencies]
image = { version = "0.24", default-features = false, features = ["png"] }
ab_glyph = "0.2"
reqwest = { version = "0.11", default-features = false, features = ["blocking"] }
