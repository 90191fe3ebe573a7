[package]
name = "tetris"
version = "0.1.0"
edition = "2021"
publish = false

[dependencies]
crossterm = "0.19"
log = "0.4"
simple-logging = "*"
wasm-bindgen = "0.2"
