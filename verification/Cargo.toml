[package]
name = "redis_clone"
version = "0.1.0"
edition = "2021"
publish = false

[dependencies]
color-eyre = "0.6"
crossbeam-channel = "0.5"
simple_logger = "4"
