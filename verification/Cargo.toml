[package]
name = "movefmt"
version = "0.1.0"
edition = "2021"
publish = false

[dependencies]
regex = "1"
unicode-segmentation = "1"
unicode-properties = "0.1"
unicode-width = "0.1"
getopts = "0.2"
anyhow = "1"
thiserror = "1"
serde = { version = "1", features = ["derive"] }
toml = "0.5"
dirs = "5"
walkdir = "2"
