[package]
name = "pager"
version = "0.1.0"
edition = "2021"
publish = false

[dependencies]
term_size = "0.3"
unicode-segmentation = "1"
rusttype = "0.9"
log = "0.4"
env_logger = "0.11"
glium = "0.34"
glutin = "0.31"
glutin-winit = "0.4"
winit = "0.29"
raw-window-handle = "0.5"
