[package]
name = "birdy"
version = "0.1.0"
edition = "2021"
publish = false

[dependencies]
arboard = "=3.2.1"
env_logger = "=0.10.2"
error-iter = "*"
log = "0.4"
winit = "=0.28.7"
winit_input_helper = "=0.14.1"
