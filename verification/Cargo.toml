[package]
name = "doke"
version = "0.1.0"
edition = "2021"
publish = false

[dependencies]
regex = "1"
yaml-rust2 = "*"
hashlink = "*"
markdown = "*"
glob = "0.3"
polib = "*"
thiserror = "*"
