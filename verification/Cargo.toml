[package]
name = "hamgraph"
version = "0.1.0"
edition = "2021"
publish = false

[dependencies]
taffy = "=0.7.7"
dirs = "=7.0.0"
sdl2 = { version = "=0.38.0", features = ["image", "ttf", "mixer"] }
egui = "=0.32.3"
egui_sdl2_platform = "=0.4.0"
serde = { version = "=1.0.229", features = ["derive"] }
serde_json = "=1.0.154"
tracing = "=0.1.44"
tracing-appender = "=0.2.5"
tracing-subscriber = { version = "=0.3.23", features = ["env-filter"] }
winapi = { version = "=0.3.9", features = ["winuser", "windef"] }
