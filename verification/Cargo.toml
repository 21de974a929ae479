[package]
name = "litki"
version = "0.1.0"
edition = "2021"
publish = false

[dependencies]
bevy = { version = "=0.17.3", default-features = false, features = ["std"] }
crossbeam = "=0.8.5"
parking_lot = "=0.12.5"
rand = "=0.8.5"
short-id = "*"
