[package]
name = "testcard"
version = "0.1.0"
edition = "2021"
publish = false

[dependencies]
anyhow = "*"
crossbeam-channel = "*"
drm = "*"
evdev = "*"
nix = { version = "*", features = ["poll"] }
