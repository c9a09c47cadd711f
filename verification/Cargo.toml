[package]
name = "do_work"
version = "0.1.0"
edition = "2021"
publish = false

[dependencies]
winterfell = "0.6"
