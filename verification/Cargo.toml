[package]
name = "fastfield_reader"
version = "0.1.0"
edition = "2021"
publish = false

[dependencies]
fastfield_codecs = { version = "=0.2.0", default-features = false }
