[package]
name = "bee_lisp"
version = "0.1.0"
edition = "2021"
publish = false

[dependencies]
rustyline = "*"

[dev-dependencies]
regex = "1"
