[package]
name = "snax"
version = "0.1.0"
edition = "2021"
publish = false

[dependencies]
htmlescape = "0.3"
proc-macro2 = "1"
quote = "1"
