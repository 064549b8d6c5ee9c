[package]
name = "shake_cursor"
version = "0.1.0"
edition = "2021"
publish = false

[dependencies]
x11rb = { version = "*", features = ["cursor", "resource_manager", "xfixes", "xinput"] }
log = "*"
env_logger = "*"
signal-hook = "*"
