[package]
name = "gstqrtimestamp"
version = "0.1.0"
edition = "2021"
publish = false

[dependencies]
qrc = "=0.0.6"
rqrr = "=0.11.0"
image = { version = "=0.25.10", default-features = false }
gstreamer = "=0.22.8"
gstreamer-base = "=0.22.6"
gstreamer-video = "=0.22.8"
gstreamer-app = "=0.22.6"
once_cell = "=1.21.4"
egui = { version = "=0.27.2", default-features = false }
eframe = { version = "0.27", default-features = false, features = ["glow"] }
egui_plot = { version = "=0.27.2", default-features = false }
tokio = { version = "=1.54.1", default-features = false, features = ["sync"] }
serde = { version = "=1.0.229", features = ["derive"] }
