[package]
name = "shot_engine"
version = "0.1.0"
edition = "2021"
publish = false

[dependencies]
clap = { version = "3.2.25", default-features = false, features = ["derive", "std"] }
mouse-rs = "0.4.2"
screenshots = "0.6.0"
xcb = "1.2.2"
