[package]
name = "gba_make_cartridge"
version = "0.1.0"
edition = "2021"
publish = false

[dependencies]
clap = "2"
error-chain = "0.12"
tempfile = "3"
