[package]
name = "giraffics"
version = "0.1.0"
edition = "2021"
publish = false

[dependencies]
env_logger = "*"
log = "*"
pixels = "*"
winit = "*"
winit_input_helper = "*"
