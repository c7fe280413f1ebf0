[package]
name = "tracing_span_capture"
version = "0.1.0"
edition = "2021"
publish = false

[dependencies]
tracing = "*"
tracing-subscriber = "*"
once_cell = "*"
