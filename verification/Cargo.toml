[package]
name = "baux2"
version = "0.1.0"
edition = "2021"
publish = false

[dependencies]
druid = "0.8"
