[package]
name = "logic_core"
version = "0.1.0"
edition = "2021"
publish = false

[dependencies]
slotmap = { version = "*", features = ["serde"] }
serde = { version = "*", features = ["derive"] }
ron = "*"
thiserror = "*"
egui = "*"
eframe = { version = "*", default-features = false, features = ["default_fonts", "glow", "x11"] }
rfd = { version = "*", default-features = false, features = ["gtk3"] }
arboard = { version = "*", default-features = false }
