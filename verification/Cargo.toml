[package]
name = "wlink"
version = "0.1.0"
edition = "2021"
publish = false

[dependencies]
nusb = "0.2"
log = "0.4"
