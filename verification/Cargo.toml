[package]
name = "ch32v003_tft"
version = "0.1.0"
edition = "2021"
publish = false

[dependencies]
ch32v0 = { version = "=0.2.0", features = ["ch32v003", "critical-section"] }
panic-halt = "=1.0.0"
qingke-rt = { version = "=0.8.3", features = ["v2a"] }
