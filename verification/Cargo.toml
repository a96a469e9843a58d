[package]
name = "detrack_proxy"
version = "0.1.0"
edition = "2021"
publish = false

[dependencies]
url = "=2.5.8"
chrono = "=0.4.45"
tokio = { version = "=1.54.1", features = ["rt-multi-thread", "net", "io-util", "macros"] }
hyper = { version = "=1.12.0", features = ["http1", "server", "client"] }
hyper-util = { version = "=0.1.21", features = ["tokio"] }
http-body-util = "=0.1.5"
bytes = "=1.12.1"
eframe = { version = "0.31", default-features = false, features = ["glow", "default_fonts", "x11"] }
egui = { version = "0.31", default-features = false }
image = { version = "0.25", default-features = false, features = ["png"] }
