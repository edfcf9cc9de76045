[package]
name = "oxbow"
version = "0.1.0"
edition = "2021"
publish = false

[dependencies]
noodles = { version = "*", features = ["core", "bgzf", "csi", "tabix", "vcf"] }
arrow = { version = "*", default-features = false, features = ["ipc"] }
extendr-api = "*"
