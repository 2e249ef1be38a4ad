[package]
name = "flyleaf-core"
version = "0.2.2"
edition = "2021"
publish = false

[dependencies]
toml_edit = "=0.25.18"
tempfile = "=3.27.0"
potext = "=0.1.0"
egui = "=0.36.2"
eframe = { version = "=0.36.2", default-features = false, features = ["default_fonts", "glow", "x11"] }
rfd = "=0.17.2"
