[package]
name = "ekg_sweep"
version = "0.1.0"
edition = "2021"
publish = false

[dependencies]
atty = "=0.2.14"
gif = "=0.14.2"
