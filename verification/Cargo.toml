[package]
name = "zwave_editor_lib"
version = "0.1.0"
edition = "2021"
publish = false

[dependencies]
symphonia = { version = "0.5", features = ["all"] }
hound = "3.5"
serde = { version = "1", features = ["derive"] }
arc-swap = "1"
cpal = "0.15"
