[package]
name = "plakat"
version = "0.1.0"
edition = "2021"
publish = false

[dependencies]
bincode = "1"
csv = "1"
pcarp = "*"
png = "*"
xml-rs = "*"
