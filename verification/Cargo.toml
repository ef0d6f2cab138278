[package]
name = "textparse"
version = "0.1.0"
edition = "2021"
publish = false

[dependencies]
gxhash = "=2.3.1"
