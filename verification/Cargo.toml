[package]
name = "slideshow"
version = "0.1.0"
edition = "2021"
publish = false

[dependencies]
rand = "0.8"
globset = "0.4"
md5 = "0.7"
walkdir = "2"
rayon = "1"
rusqlite = { version = "0.31", features = ["bundled"] }
serde = { version = "1", features = ["derive"] }
serde_json = "1"
dirs = "5"
kamadak-exif = "0.5"
image = "0.25"
