[package]
name = "niri_dictation"
version = "0.1.0"
edition = "2021"
publish = false

[dependencies]
anyhow = "1"
calloop = "0.14"
knuffel = "3.2.0"
ordered-float = "*"
pangocairo = "*"
pipewire = "*"
serde_json = "1"
smithay = { version = "*", default-features = false, features = ["wayland_frontend", "renderer_gl"] }
tracy-client = { version = "*", default-features = false }
ureq = { version = "3", default-features = false }
