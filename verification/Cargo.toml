[package]
name = "command_palette"
version = "0.1.0"
edition = "2021"
publish = false

[dependencies]
nucleo = "0.5"
fuzzy-matcher = "0.3"
smol = "2"
