[package]
name = "doom_core"
version = "0.1.0"
edition = "2021"
publish = false

[dependencies]
anyhow = "1"
byteorder = "1"
clap = "2"
log = "0.4"
regex = "1"
