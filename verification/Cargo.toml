[package]
name = "sh1107g"
version = "0.1.0"
edition = "2021"
publish = false

[dependencies]
heapless = "=0.8.0"
embedded-hal = "=1.0.0"
embedded-hal-async = "=1.0.0"
embedded-graphics-core = "=0.4.1"
