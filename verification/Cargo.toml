[package]
name = "wsize"
version = "0.1.0"
edition = "2021"
publish = false

[dependencies]
serde_json = "*"
serde = "*"
glob = "*"
rayon = "*"
pyo3 = "*"
eframe = { version = "*", default-features = false, features = ["glow", "x11", "default_fonts"] }
egui = "*"
rfd = { version = "*", default-features = false, features = ["xdg-portal", "tokio"] }
env_logger = { version = "*", default-features = false }
