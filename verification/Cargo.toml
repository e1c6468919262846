[package]
name = "rvpacker_json_txt"
version = "0.1.0"
edition = "2021"
publish = false

[dependencies]
fastrand = "*"
serde_json = "*"
clap = "*"
color-print = "*"
sys-locale = "*"
fancy-regex = "*"
rayon = "*"
