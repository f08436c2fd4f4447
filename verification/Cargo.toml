[package]
name = "pactl_mixer"
version = "0.1.0"
edition = "2021"
publish = false

[dependencies]
regex = "1"
sarge = "3"
eframe = { version = "0.22", default-features = false, features = ["glow"] }
