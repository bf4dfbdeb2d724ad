[package]
name = "tsukimi"
version = "0.1.0"
edition = "2021"
publish = false

[dependencies]
flume = "*"
gtk4 = "*"
libmpv2 = "*"
libmpv2-sys = "*"
once_cell = "*"
tokio = { version = "1", features = ["sync"] }
tracing = "*"
