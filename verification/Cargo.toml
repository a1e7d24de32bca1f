[package]
name = "cxsh"
version = "0.1.0"
edition = "2021"
publish = false

[dependencies]
nix = "0.26"
termion = "1.5"
unicode-width = "0.1"

[dev-dependencies]
nom = "7"
