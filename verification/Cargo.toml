[package]
name = "laptop_backup"
version = "0.1.0"
edition = "2021"
publish = false

[dependencies]
age = "0.11"
anyhow = "1"
chrono = "0.4"
tar = "0.4"
walkdir = "2"
