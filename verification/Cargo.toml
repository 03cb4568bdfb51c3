[package]
name = "vse_rs"
version = "0.1.0"
edition = "2021"
publish = false

[dependencies]
naga = { version = "=0.7.3", features = ["wgsl-in"] }
egui = "=0.14.2"
eframe = "0.14"
egui_nodes = "=0.1.3"
