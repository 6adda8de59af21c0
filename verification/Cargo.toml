[package]
name = "sysfetch"
version = "0.1.0"
edition = "2021"
publish = false

[dependencies]
whoami = { version = "1.5", default-features = false }
