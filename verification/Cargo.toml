[package]
name = "autonormalization_monitor"
version = "0.1.0"
edition = "2021"
publish = false

[dependencies]
chrono = { version = "0.4", default-features = false, features = ["clock", "std"] }
eframe = { version = "0.31", default-features = false, features = ["default_fonts", "glow", "x11"] }
egui_plot = { version = "0.31", default-features = false }
image = { version = "0.25", default-features = false, features = ["png"] }
libc = "0.2"
rayon = "1"
tiff = { version = "0.10", default-features = false, features = ["deflate", "lzw"] }
