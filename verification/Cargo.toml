[package]
name = "pattern_lang"
version = "0.1.0"
edition = "2021"
publish = false

[dependencies]
anyhow = "1"
nom = { version = "5.1", default-features = false, features = ["std"] }
