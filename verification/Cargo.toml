[package]
name = "hawktui"
version = "0.1.0"
edition = "2021"
publish = false

[dependencies]
unicode-width = "0.2"
unicode-segmentation = "1"
crossterm = "0.28"
serde = { version = "1", features = ["derive"] }
serde_json = "1"
