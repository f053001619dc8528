[package]
name = "libtagfs"
version = "0.1.0"
edition = "2021"
publish = false

[dependencies]
rusqlite = { version = "*", features = ["bundled"] }
fuser = "*"
clap = { version = "*", features = ["derive"] }
anyhow = "*"
camino = "*"
log = "*"
env_logger = "*"
libc = "*"
walkdir = "*"
mktemp = "*"
regex = "*"
serde_json = "*"
ureq = { version = "2", features = ["json"] }
audiotags = "*"
kamadak-exif = "*"
chrono = "*"
