[package]
name = "sensor_monitor"
version = "0.1.0"
edition = "2021"
publish = false

[dependencies]
anyhow = "=1.0.104"
chrono = "=0.4.45"
dirs-next = "=2.0.0"
eframe = { version = "=0.23.0", default-features = false, features = ["glow", "default_fonts", "x11"] }
egui = { version = "=0.23.0", default-features = false }
egui_plot = "=0.23.0"
env_logger = { version = "=0.11.11", default-features = false }
firebase-rs = "=2.2.5"
log = "=0.4.34"
reqwest = { version = "=0.12.28", default-features = false }
rusqlite = { version = "=0.31.0", features = ["bundled"] }
serde = { version = "=1.0.229", features = ["derive"] }
serde_json = "=1.0.154"
tokio = { version = "=1.54.1", features = ["rt-multi-thread", "time"] }
