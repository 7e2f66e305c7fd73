[package]
name = "planetary_transfer"
version = "0.1.0"
edition = "2021"
publish = false

[dependencies]
eframe = "0.16"
egui = "0.16"
thousands = "0.2"
