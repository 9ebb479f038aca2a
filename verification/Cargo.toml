[package]
name = "can_bus"
version = "0.1.0"
edition = "2021"
publish = false

[dependencies]
socketcan = "=3.6.2"
