[package]
name = "quick_search"
version = "0.1.0"
edition = "2021"
publish = false

[dependencies]
eframe = { version = "0.29", default-features = false, features = ["glow", "default_fonts", "x11"] }
serde = { version = "1", features = ["derive"] }
serde_json = "1"
winit = { version = "0.30", default-features = false, features = ["x11", "rwh_06"] }
