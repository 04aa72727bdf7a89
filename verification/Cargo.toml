[package]
name = "core_compat"
version = "0.1.0"
edition = "2021"
publish = false

[dependencies]
byteorder = "1"
rusqlite = "*"
