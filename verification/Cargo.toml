[package]
name = "arbor"
version = "0.1.0"
edition = "2021"
publish = false

[dependencies]
tracing = "=0.1.44"
tracing-subscriber = "=0.3.23"
