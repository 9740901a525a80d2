[package]
name = "razed"
version = "0.1.0"
edition = "2021"
publish = false

[dependencies]
glam = "=0.34.1"
rand = "=0.10.3"
rustc-hash = "=2.1.3"
tracing = "=0.1.44"
tracing-subscriber = "=0.3.23"
