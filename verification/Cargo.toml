[package]
name = "powsearch"
version = "0.1.0"
edition = "2021"
publish = false

[dependencies]
sha1 = "0.6"
