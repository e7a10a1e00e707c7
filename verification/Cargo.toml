[package]
name = "audio_analyzer"
version = "0.1.0"
edition = "2021"
publish = false

[dependencies]
ringbuf = "0.4"
rustfft = "6"
eframe = { version = "0.30", default-features = false, features = ["default_fonts", "glow", "x11"] }
egui_plot = "0.30"
