[package]
name = "amida"
version = "0.1.0"
edition = "2021"
publish = false

[dependencies]
csscolorparser = "*"
serde = { version = "*", features = ["derive"] }
ron = "*"
tiff = "*"
image = { version = "*", default-features = false, features = ["png"] }
glam = "*"
