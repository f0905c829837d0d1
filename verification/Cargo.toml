[package]
name = "logviewer"
version = "0.1.0"
edition = "2021"
publish = false

[dependencies]
unicode-segmentation = "1"
chrono = "0.4"
clipboard = "0.5"
crossterm = "0.25"
fps_counter = "*"
lazy_static = "1"
num-traits = "0.2"
tui = "0.19"
unicode-width = "0.1"
