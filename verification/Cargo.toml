[package]
name = "sqlitehll"
version = "0.1.0"
edition = "2021"
publish = false

[dependencies]
hyperloglog = "1"
