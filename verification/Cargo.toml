[package]
name = "emf_mmf"
version = "0.1.0"
edition = "2021"
publish = false

[dependencies]
bevy = { version = "=0.17.3", default-features = false, features = ["bevy_pbr", "bevy_winit", "x11"] }
bevy_egui = { version = "=0.37.1", default-features = false, features = ["render", "default_fonts"] }
