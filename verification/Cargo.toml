[package]
name = "rustydeb"
version = "0.1.0"
edition = "2021"
publish = false

[dependencies]
ar = "*"
flate2 = "*"
serde = { version = "*", features = ["derive"] }
tar = "*"
tempfile = "*"
xz2 = "*"
