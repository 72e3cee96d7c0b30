[package]
name = "hc12_sdr"
version = "0.1.0"
edition = "2021"
publish = false

[dependencies]
anyhow = "=1.0.104"
crossbeam-channel = "=0.5.17"
eframe = { version = "=0.32.3", default-features = false, features = ["default_fonts", "glow", "x11"] }
egui = "=0.32.3"
egui_plot = "=0.33.0"
num-complex = "=0.4.6"
rtlsdr = "=0.1.4"
rtlsdr_mt = "=2.2.0"
rustfft = "=6.4.1"
