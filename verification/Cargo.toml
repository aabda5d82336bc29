[package]
name = "retris"
version = "0.2.0"
edition = "2021"
publish = false

[dependencies]
crossterm = "0.22"
lazy_static = "1.4"
rand = "0.8"
termios = "0.3"
