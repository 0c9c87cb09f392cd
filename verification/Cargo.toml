[package]
name = "cell_sim"
version = "0.1.0"
edition = "2021"
publish = false

[dependencies]
rand = "0.8"
noise = "0.8"
colors-transform = "0.2"
egui = "0.22"
eframe = { version = "0.22", default-features = false, features = ["default_fonts", "glow"] }
