[package]
name = "tsukuyomi"
version = "0.1.0"
edition = "2021"
publish = false

[dependencies]
http = "*"
sha1 = "*"
base64 = "*"
