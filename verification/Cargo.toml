[package]
name = "viewkit"
version = "0.1.0"
edition = "2021"
publish = false

[dependencies]
toml = "=0.8.23"
html5ever = "=0.39.0"
markup5ever_rcdom = "=0.39.0+unofficial"
fontdue = "=0.9.5"
memmap2 = "=0.9.12"
tempfile = "=3.27.0"
ui_layout = "=0.9.8"
wayland-client = "=0.31.15"
wayland-protocols = { version = "=0.32.13", features = ["client"] }
