[package]
name = "sandbox_wm"
version = "0.1.0"
edition = "2021"
publish = false

[dependencies]
smithay = "0.7"
rapier2d = "*"
cgmath = "0.18"
serde = { version = "1", features = ["derive"] }
toml = "*"
wayland-server = "0.31"
wayland-protocols-wlr = { version = "0.3", features = ["server"] }
