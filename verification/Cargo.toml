[package]
name = "everest"
version = "0.1.0"
edition = "2021"
publish = false

[dependencies]
rustyline = "*"

[dev-dependencies]
nom = "7.1.3"
