[package]
name = "monana"
version = "0.1.0"
edition = "2021"
publish = false

[dependencies]
anyhow = "*"
camino = "*"
clap = { version = "*", features = ["derive"] }
image = "*"
nom-exif = "*"
reverse_geocoder = "*"
serde = { version = "*", features = ["derive"] }
serde_json = "*"
serde_yaml = "*"
tree_magic_mini = "*"
walkdir = "*"
