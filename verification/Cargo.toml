[package]
name = "extol_image_font"
version = "0.1.0"
edition = "2021"
publish = false

[dependencies]
image = { version = "0.24", default-features = false }
ron = "0.8"
serde = { version = "1", features = ["derive"] }
thiserror = "1"
