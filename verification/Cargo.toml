[package]
name = "painty"
version = "0.1.0"
edition = "2021"
publish = false

[dependencies]
anstyle = "=1.0.14"
unicode-width = "=0.2.2"
unicode-segmentation = "=1.13.3"
tokora = { version = "=0.12.0", default-features = false }
