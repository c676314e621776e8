[package]
name = "timbits"
version = "0.1.0"
edition = "2021"
publish = false

[dependencies]
seahash = "=4.1.0"
emojis = "=0.9.1"
dirs = "=6.0.0"
anyhow = "=1.0.104"
arboard = "=3.7.0"
eframe = { version = "=0.37.0", default-features = false, features = ["default_fonts", "glow", "wayland", "x11"] }
env_logger = { version = "=0.11.11", default-features = false }
global-hotkey = "=0.9.0"
image = { version = "=0.25.10", default-features = false, features = ["png", "jpeg", "webp", "bmp", "gif", "tiff"] }
libc = "=0.2.191"
log = "=0.4.35"
rusqlite = "=0.41.1"
serde = { version = "=1.0.229", features = ["derive"] }
serde_json = "=1.0.154"
toml = "=0.9.8"
ttf-parser = "=0.25.1"
