[package]
name = "prism"
version = "0.1.0"
edition = "2021"
publish = false

[dependencies]
async-channel = "2"
fastrand = "2"
futures = "0.3"
image = { version = "0.25", default-features = false, features = ["png", "jpeg"] }
nucleo = "0.5"
rfd = "*"
rodio = { version = "0.22", default-features = false, features = ["playback", "symphonia-all"] }
smol = "2"
symphonia = { version = "0.6", features = ["all"] }
walkdir = "2"
