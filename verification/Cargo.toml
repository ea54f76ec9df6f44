[package]
name = "hotkey_config"
version = "0.1.0"
edition = "2021"
publish = false

[dependencies]
evdev = "0.11"
itertools = "0.10"
