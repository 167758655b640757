[package]
name = "bevy_clipmap"
version = "1.0.5"
edition = "2021"
publish = false

[dependencies]
bevy = { version = "0.19", default-features = false, features = ["std", "bevy_pbr", "bevy_log"] }
