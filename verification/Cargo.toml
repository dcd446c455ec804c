[package]
name = "mikan_os"
version = "0.1.0"
edition = "2021"
publish = false

[dependencies]
uefi = "0.26"
rusttype = "0.9"
