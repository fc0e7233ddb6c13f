[package]
name = "cosmic-pulsar"
version = "0.1.0"
edition = "2021"
publish = false

[dependencies]
lofty = "=0.22.4"
rodio = "=0.21.1"
tokio = { version = "=1.54.1", features = ["time"] }
walkdir = "=2.5.0"
