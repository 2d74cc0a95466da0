[package]
name = "rawsort"
version = "0.1.0"
edition = "2021"
publish = false

[dependencies]
chrono = "0.4"
itertools = "*"
walkdir = "2"
dialoguer = "*"
clap = "2"
notify = "4"
kamadak-exif = "*"
