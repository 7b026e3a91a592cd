[package]
name = "composer"
version = "0.1.0"
edition = "2021"
publish = false

[dependencies]
alacritty_terminal = "*"
egui = { version = "*", default-features = false, features = ["default_fonts"] }
uuid = "*"
dirs = "*"
log = "*"
open = "*"
