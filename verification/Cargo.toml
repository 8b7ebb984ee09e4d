[package]
name = "synth"
version = "0.1.0"
edition = "2021"
publish = false

[dependencies]
egui = "*"
eframe = { version = "*", default-features = false, features = ["glow", "x11", "default_fonts"] }
rodio = { version = "*", default-features = false }
