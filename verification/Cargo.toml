[package]
name = "scheduler"
version = "0.1.0"
edition = "2021"
publish = false

[dependencies]
chrono = "0.4"
chrono-tz = "*"
cron-parser = "*"
async-std = "*"
js-sys = "*"
wasm-bindgen = "*"
wasm-bindgen-futures = "*"
