[package]
name = "react_engine"
version = "0.1.0"
edition = "2021"
publish = false

[dependencies]
crossbeam = "*"
bevy = { version = "*", default-features = false }
