[package]
name = "tterm"
version = "0.1.0"
edition = "2021"
publish = false

[dependencies]
fontdue = "=0.9.5"
simple_logger = "4"
softbuffer = "0.3"
winit = "=0.29.0-beta.0"
