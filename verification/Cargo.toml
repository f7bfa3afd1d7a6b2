[package]
name = "glow"
version = "0.1.0"
edition = "2021"
publish = false

[dependencies]
unicode-width = "=0.2.3"
unicode-segmentation = "=1.13.3"
unicode-normalization = "=0.1.26"
unicode-properties = "*"
serde = { version = "=1.0.229", features = ["derive"] }
serde_json = "=1.0.154"
serde_yaml = "=0.9.34"
chrono = "=0.4.45"
crossterm = "=0.29.0"
libc = "=0.2.191"
notify = "=8.2.1"
pulldown-cmark = "=0.13.6"
ureq = "=2.12.1"
ignore = "=0.4.34"

[dev-dependencies]
tempfile = "=3.27.0"
