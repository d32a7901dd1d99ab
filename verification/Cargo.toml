[package]
name = "process_monitor"
version = "0.1.0"
edition = "2021"
publish = false

[dependencies]
users = "0.11"
sysinfo = { version = "0.22", default-features = false }
eframe = { version = "0.22", default-features = false, features = ["default_fonts", "glow"] }
egui = "0.22"
