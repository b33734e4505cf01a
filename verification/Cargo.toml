[package]
name = "splitype_editor"
version = "0.1.0"
edition = "2021"
publish = false

[dependencies]
url = "=2.5.8"
unicode-segmentation = "1"
