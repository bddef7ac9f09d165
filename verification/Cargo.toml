[package]
name = "glazer"
version = "0.1.0"
edition = "2021"
publish = false

[dependencies]
image = { version = "=0.25.10", default-features = false, features = ["png"] }
libc = "=0.2.191"
libm = "=0.2.16"
winit = "=0.30.13"
softbuffer = "=0.4.8"
cpal = "=0.16.0"
rodio = { version = "=0.21.1", default-features = false, features = ["wav"] }
