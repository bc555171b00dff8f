[package]
name = "carnet"
version = "0.1.0"
edition = "2021"
publish = false

[dependencies]
anyhow = "=1.0.104"
chrono = { version = "=0.4.45", features = ["serde"] }
chrono-tz = { version = "=0.10.4", features = ["serde"] }
clap = { version = "=4.6.7", features = ["derive"] }
fast_image_resize = { version = "=5.5.0", features = ["image"] }
geojson = "=0.24.2"
image = "=0.25.10"
imgref = "=1.12.3"
indicatif = "=0.18.6"
nom-exif = "=3.8.0"
ravif = { version = "=0.13.0", default-features = false, features = ["threading"] }
rayon = "=1.12.0"
rgb = "=0.8.53"
serde = { version = "=1.0.229", features = ["derive"] }
serde_json = "=1.0.154"
serde_norway = "=0.9.42"
thiserror = "=2.0.21"
ureq = { version = "=3.5.1", features = ["json"] }
walkdir = "=2.5.0"
