[package]
name = "elisa"
version = "0.1.0"
edition = "2021"
publish = false

[dependencies]
calamine = "=0.37.0"
chrono = { version = "=0.4.45", default-features = false, features = ["clock"] }
eframe = { version = "=0.31.1", default-features = false, features = ["default_fonts", "glow", "x11"] }
egui = "=0.31.1"
egui_extras = { version = "=0.31.1", default-features = false }
egui_plot = "=0.31.0"
env_logger = { version = "=0.11.11", default-features = false }
font-loader = "=0.11.0"
image = { version = "=0.25.10", default-features = false, features = ["png"] }
pdf-writer = "=0.15.0"
rfd = { version = "=0.17.2", default-features = false, features = ["xdg-portal"] }
serde = { version = "=1.0.229", features = ["derive"] }
serde_json = "=1.0.154"
