[package]
name = "tracelock"
version = "0.1.0"
edition = "2021"
publish = false

[dependencies]
names = "*"
log = "*"
backtrace = "*"
tokio = { version = "*", features = ["sync", "rt-multi-thread", "macros"] }
