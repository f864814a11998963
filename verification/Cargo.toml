[package]
name = "fehui"
version = "0.1.0"
edition = "2021"
publish = false

[dependencies]
stretch = "*"
libloading = "*"
notify = "*"
tempfile = "*"
