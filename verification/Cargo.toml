[package]
name = "zipcodec"
version = "0.1.0"
edition = "2021"
publish = false

[dependencies]
crc32fast = "*"
miniz_oxide = "*"
chrono = "*"
