[package]
name = "isla"
version = "0.2.0"
edition = "2021"
publish = false

[dependencies]
crossbeam = "0.8"
getopts = "0.2"
sha2 = "0.8"
