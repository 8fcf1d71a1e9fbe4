[package]
name = "proto772"
version = "0.1.0"
edition = "2021"
publish = false

[dependencies]
byteorder = "1"
varint-rs = "2"
thiserror = "2"
