[package]
name = "novel_words"
version = "0.1.0"
edition = "2021"
publish = false

[dependencies]
epub = "*"
html2text = "*"
pdf-extract = "*"
chrono = "*"
