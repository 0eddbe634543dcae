[package]
name = "privscrn"
version = "0.1.0"
edition = "2021"
publish = false

[dependencies]
winit = "=0.30.13"
softbuffer = "=0.4.8"
x11 = { version = "=2.21.0", features = ["xlib"] }
clap = { version = "=4.6.7", features = ["derive"] }
ctrlc = "=3.5.2"
