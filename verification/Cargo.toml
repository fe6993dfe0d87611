[package]
name = "ttf_word_wrap"
version = "0.1.0"
edition = "2021"
publish = false

[dependencies]
unicode-segmentation = "*"
ttf-parser = "*"
