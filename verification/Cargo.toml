[package]
name = "fanout"
version = "0.1.0"
edition = "2021"
publish = false

[dependencies]
getopts = "0.2"
walkdir = "2"
sha1 = "0.10"
