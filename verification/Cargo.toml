[package]
name = "node_compiler"
version = "0.1.0"
edition = "2021"
publish = false

[dependencies]
serde = { version = "=1.0.229", features = ["derive"] }
postcard = { version = "=1.1.3", features = ["alloc"] }
ron = "=0.11.0"
anyhow = "=1.0.104"
log = "=0.4.35"
egui = "=0.32.3"
egui-snarl = "=0.8.0"
eframe = { version = "=0.32.3", default-features = false, features = ["glow", "x11", "default_fonts", "persistence"] }
rfd = { version = "=0.15.4", default-features = false, features = ["xdg-portal", "tokio"] }
env_logger = { version = "=0.11.11", default-features = false }
