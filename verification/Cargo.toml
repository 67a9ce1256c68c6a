[package]
name = "voca_rs"
version = "1.11.0"
edition = "2021"
publish = false

[dependencies]
regex = "1"
stfu8 = "0.2"
unicode-segmentation = "1"
unidecode = "0.3"
