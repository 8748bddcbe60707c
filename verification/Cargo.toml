[package]
name = "pinentry_wayland"
version = "0.1.0"
edition = "2021"
publish = false

[dependencies]
log = "*"
env_logger = "*"
pinentry = "*"
assuan = "*"
smithay-client-toolkit = "*"
wayland-client = "*"
swash = "*"
