[package]
name = "sync-iobs"
version = "0.1.0"
edition = "2021"
publish = false

[dependencies]
ureq = { version = "2", default-features = false, features = ["native-tls"] }
native-tls = "0.2"
serde = { version = "1", features = ["derive"] }
serde_json = "1"
eframe = { version = "0.36", default-features = false, features = ["default_fonts", "glow", "x11"] }
rfd = "*"
