[package]
name = "nect-rs"
version = "0.1.0"
edition = "2021"
publish = false

[dependencies]
rusb = "0.9"
libusb1-sys = "0.7"
libc = "0.2"
