[package]
name = "rivalcfg_tray"
version = "0.1.0"
edition = "2021"
publish = false

[dependencies]
anyhow = "*"
dirs = "*"
tempfile = "*"
