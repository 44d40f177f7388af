[package]
name = "polysynth"
version = "0.1.0"
edition = "2021"
publish = false

[dependencies]
nice-plug = "*"
egui = "0.31"
