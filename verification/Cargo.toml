[package]
name = "uking_relocate"
version = "0.1.0"
edition = "2021"
publish = false

[dependencies]
memchr = "2"
roead = "1"
elf = "0.7"
clap = { version = "4", features = ["derive"] }
