[package]
name = "grid_scenario"
version = "0.1.0"
edition = "2021"
publish = false

[dependencies]
ncurses = "*"
