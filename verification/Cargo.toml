[package]
name = "assign_resources"
version = "0.1.0"
edition = "2021"
publish = false

[dependencies]
Inflector = "*"
