[package]
name = "rock"
version = "0.1.0"
edition = "2021"
publish = false

[dependencies]
fs_extra = "*"
flate2 = "*"
tar = "*"
reqwest = { version = "*", default-features = false, features = ["blocking"] }
