[package]
name = "evfs"
version = "0.1.0"
edition = "2021"
publish = false

[dependencies]
ring = "=0.17.14"
argon2 = "=0.5.3"
flate2 = "=1.1.10"
bincode = "=1.3.3"
serde = { version = "=1.0.229", features = ["derive"] }
uuid = { version = "=1.29.0", features = ["v4"] }
walkdir = "=2.5.0"
rayon = "=1.12.0"
zeroize = "=1.9.1"
rand = "=0.10.3"
opener = "=0.9.0"
image = { version = "=0.25.10", default-features = false, features = ["gif"] }
rfd = { version = "=0.17.2", default-features = false, features = ["xdg-portal"] }
egui = "=0.37.0"
eframe = { version = "=0.37.0", default-features = false, features = ["glow", "default_fonts", "x11"] }
