[package]
name = "wisun"
version = "0.1.0"
edition = "2021"
publish = false

[dependencies]
rand = "0.8"
serialport = { version = "4", default-features = false }
log = "0.4"
simplelog = "0.12"

[dev-dependencies]
hex = "0.4"
