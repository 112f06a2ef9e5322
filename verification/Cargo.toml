[package]
name = "sweeten"
version = "0.1.0"
edition = "2021"
publish = false

[dependencies]
iced = { version = "0.13", default-features = false, features = ["advanced", "tiny-skia"] }
iced_core = "0.13"
iced_widget = "0.13"
