[package]
name = "arrow_stream_framing"
version = "0.1.0"
edition = "2021"
publish = false

[dependencies]
fbs = "*"
hex = "*"
