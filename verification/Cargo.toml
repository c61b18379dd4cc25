[package]
name = "lightfield_search"
version = "0.1.0"
edition = "2021"
publish = false

[dependencies]
cgmath = "*"
env_logger = "*"
image = { version = "*", default-features = false, features = ["jpeg"] }
lightfield_loader = "*"
log = "*"
