[package]
name = "fcl"
version = "0.1.0"
edition = "2021"
publish = false

[dependencies]
filedescriptor = "0.8"
tempfile = "3"
