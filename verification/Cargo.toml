[package]
name = "console_renderer"
version = "0.1.0"
edition = "2021"
publish = false

[dependencies]
colored = "=2.2.0"
crossterm = "=0.28.1"
rand = "=0.8.8"
winput = "=0.2.5"
