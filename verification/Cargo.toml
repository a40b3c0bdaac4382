[package]
name = "rustchristmasdb"
version = "0.1.0"
edition = "2021"
publish = false

[dependencies]
arrow = "*"
roaring = "*"
indexmap = "*"
comfy-table = "*"
