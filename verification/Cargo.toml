[package]
name = "zuxi"
version = "0.1.0"
edition = "2021"
publish = false

[dependencies]
pulldown-cmark = { version = "0.13", default-features = false }
walkdir = "2"
imagesize = "0.14"
tempfile = "3"
