[package]
name = "rkimage"
version = "0.1.0"
edition = "2021"
publish = false

[dependencies]
scroll = "*"
clap = { version = "*", features = ["derive"] }
clap_derive = "*"
memmap2 = "*"
