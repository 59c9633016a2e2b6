[package]
name = "jitdump"
version = "0.1.0"
edition = "2021"
publish = false

[dependencies]
linux-perf-event-reader = "*"
byteorder = "1"
