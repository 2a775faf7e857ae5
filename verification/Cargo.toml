[package]
name = "glyph_art"
version = "0.1.0"
edition = "2021"
publish = false

[dependencies]
bdf-reader = "*"
colored = "*"
image = { version = "0.24", default-features = false, features = ["gif", "png", "jpeg"] }
clap = { version = "*", features = ["derive"] }
env_logger = "*"
indicatif = "*"
log = "*"
serde_json = "*"
