[package]
name = "duscape"
version = "0.1.0"
edition = "2021"
publish = false

[dependencies]
clap = { version = "=4.6.7", features = ["derive"] }
fontdue = "=0.9.5"
image = { version = "=0.25.10", default-features = false, features = ["bmp", "gif", "ico", "jpeg", "png", "tiff", "webp"] }
libc = "=0.2.191"
ratatui = "=0.29.0"
serde = { version = "=1.0.229", features = ["derive"] }
thiserror = "=2.0.21"
toml = "=1.1.8"
unicode-width = "=0.2.0"
wayland-client = "=0.31.15"
wayland-cursor = "=0.31.14"
wayland-protocols = { version = "=0.32.13", features = ["client", "unstable"] }
x11rb = { version = "=0.13.2", features = ["image", "resource_manager"] }
