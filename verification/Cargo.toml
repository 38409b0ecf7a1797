[package]
name = "blokus"
version = "0.1.0"
edition = "2021"
publish = false

[dependencies]
crossterm = "0.27"
rand = "0.8"
ratatui = "0.26"
