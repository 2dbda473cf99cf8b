[package]
name = "wallpaper_engine"
version = "0.1.0"
edition = "2021"
publish = false

[dependencies]
serde = { version = "=1.0.229", features = ["derive"] }
serde_json = "=1.0.154"
ctrlc = "=3.5.2"
wayland-client = "=0.31.15"
smithay-client-toolkit = "=0.19.2"
cairo-rs = { version = "=0.20.12", features = ["png"] }
display-info = "=0.5.10"
env_logger = "=0.11.11"
eframe = { version = "*", default-features = false, features = ["default_fonts", "glow", "wayland"] }
egui_extras = { version = "*", default-features = false, features = ["file", "image"] }
