[package]
name = "dotstroke"
version = "0.1.0"
edition = "2021"
publish = false

[dependencies]
egui = "*"
eframe = { version = "*", default-features = false, features = ["default_fonts", "glow", "x11"] }
image = { version = "*", default-features = false, features = ["png"] }
rfd = { version = "*", default-features = false, features = ["gtk3"] }
arboard = { version = "*", default-features = false }
muda = "*"
winit = "*"
serde = { version = "1", features = ["derive"] }
serde_json = "1"
