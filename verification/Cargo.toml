[package]
name = "paintmate"
version = "0.1.0"
edition = "2021"
publish = false

[dependencies]
image = { version = "0.24", default-features = false, features = ["png", "jpeg", "gif", "bmp", "tiff"] }
rfd = { version = "0.14", default-features = false, features = ["xdg-portal", "tokio"] }
anyhow = "1"
log = "0.4"
