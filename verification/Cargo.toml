[package]
name = "snake"
version = "0.1.0"
edition = "2021"
publish = false

[dependencies]
rand = "=0.8.8"
bevy = { version = "=0.7.0", default-features = false, features = ["render", "bevy_winit", "x11"] }
# bevy 0.7's derive macros need syn 1 with its `full` feature, which these releases switch on
tracing = "=0.1.37"
tracing-attributes = "=0.1.23"
