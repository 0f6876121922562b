[package]
name = "realraw"
version = "0.1.0"
edition = "2021"
publish = false

[dependencies]
image = { version = "0.25", default-features = false, features = ["jpeg", "png", "tiff"] }
jpeg-decoder = "0.3"
kamadak-exif = "0.6"
walkdir = "2"
cacache-sync = "*"
thiserror = "2"
